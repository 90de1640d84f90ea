//! Which series of a loaded log are drawn: the on/off switch kept for each
//! plotted name, and the lines and cycle markers that the switches select.
use vstd::prelude::*;
use crate::entry::{LogEntry, LogEntryView};
use crate::assoc::{find_name, lemma_pairs_map, lemma_pairs_push, lemma_pairs_update, names_distinct, pairs_map};
use crate::float_text::FloatLiteral;
use crate::loaded::{groups_view, EntryGroup, EntryGroupView};
use crate::number::{decimal_chars, decimal_text};
use crate::text::{chars_of, string_of};

verus! {

broadcast use vstd::string::group_string_axioms;

/// The on/off switch of each plotted name.
pub struct GraphToggles {
    pairs: Vec<(String, bool)>,
}

pub open spec fn pairs_view(v: Seq<(String, bool)>) -> Seq<(Seq<char>, bool)> {
    v.map_values(|p: (String, bool)| (p.0@, p.1))
}

impl View for GraphToggles {
    type V = Map<Seq<char>, bool>;

    closed spec fn view(&self) -> Map<Seq<char>, bool> {
        pairs_map(pairs_view(self.pairs@))
    }
}

/// Whether the switch of `name` is on; a name without a switch is off.
pub open spec fn is_on(t: Map<Seq<char>, bool>, name: Seq<char>) -> bool {
    t.contains_key(name) && t[name]
}

impl GraphToggles {
    #[verifier::type_invariant]
    spec fn well_formed(self) -> bool {
        names_distinct(pairs_view(self.pairs@))
    }

    /// No switches.
    pub fn new() -> (r: GraphToggles)
        ensures
            r@ == Map::<Seq<char>, bool>::empty(),
    {
        let r = GraphToggles { pairs: Vec::new() };
        assert(pairs_view(r.pairs@) =~= Seq::<(Seq<char>, bool)>::empty());
        r
    }

    fn index_of(&self, name: &String) -> (r: Option<usize>)
        ensures
            match r {
                Some(i) => i < self.pairs@.len() && self.pairs@[i as int].0@ == name@,
                None => forall|i: int| 0 <= i < self.pairs@.len() ==> self.pairs@[i].0@ != name@,
            },
    {
        find_name(&self.pairs, name)
    }

    /// Whether the switch of `name` is on.
    pub fn is_enabled(&self, name: &String) -> (r: bool)
        ensures
            r == is_on(self@, name@),
    {
        proof {
            use_type_invariant(self);
            lemma_pairs_map(pairs_view(self.pairs@));
        }
        match self.index_of(name) {
            Some(i) => {
                assert(pairs_view(self.pairs@)[i as int].0 == name@);
                self.pairs[i].1
            },
            None => {
                assert(!pairs_map(pairs_view(self.pairs@)).contains_key(name@)) by {
                    if pairs_map(pairs_view(self.pairs@)).contains_key(name@) {
                        let k = choose|k: int| 0 <= k < pairs_view(self.pairs@).len() && pairs_view(self.pairs@)[k].0 == name@;
                        assert(self.pairs@[k].0@ == name@);
                    }
                }
                false
            },
        }
    }

    /// Whether `name` has a switch.
    pub fn contains(&self, name: &String) -> (r: bool)
        ensures
            r == self@.contains_key(name@),
    {
        proof {
            use_type_invariant(self);
            lemma_pairs_map(pairs_view(self.pairs@));
        }
        match self.index_of(name) {
            Some(i) => {
                assert(pairs_view(self.pairs@)[i as int].0 == name@);
                true
            },
            None => {
                assert(!pairs_map(pairs_view(self.pairs@)).contains_key(name@)) by {
                    if pairs_map(pairs_view(self.pairs@)).contains_key(name@) {
                        let k = choose|k: int| 0 <= k < pairs_view(self.pairs@).len() && pairs_view(self.pairs@)[k].0 == name@;
                        assert(self.pairs@[k].0@ == name@);
                    }
                }
                false
            },
        }
    }

    /// Sets the switch of `name`, adding it where it has none.
    pub fn set(&mut self, name: &String, on: bool)
        ensures
            final(self)@ == old(self)@.insert(name@, on),
    {
        proof {
            use_type_invariant(&*self);
        }
        let ghost old_pairs = pairs_view(self.pairs@);
        let mut pairs = Vec::new();
        std::mem::swap(&mut pairs, &mut self.pairs);
        match find_name(&pairs, name) {
            Some(i) => {
                pairs.set(i, (name.clone(), on));
                proof {
                    assert(pairs_view(pairs@) =~= old_pairs.update(i as int, (old_pairs[i as int].0, on)));
                    lemma_pairs_update(old_pairs, i as int, on);
                }
            },
            None => {
                pairs.push((name.clone(), on));
                proof {
                    assert(pairs_view(pairs@) =~= old_pairs.push((name@, on)));
                    lemma_pairs_push(old_pairs, name@, on);
                }
            },
        }
        self.pairs = pairs;
    }

    /// Gives `name` a switch that is off, where it has none yet.
    pub fn insert_if_absent(&mut self, name: &String)
        ensures
            final(self)@ == if old(self)@.contains_key(name@) {
                old(self)@
            } else {
                old(self)@.insert(name@, false)
            },
    {
        if !self.contains(name) {
            self.set(name, false);
        }
    }

    /// The names with a switch and the state of each.
    pub fn switches(&self) -> (r: Vec<(String, bool)>)
        ensures
            pairs_map(pairs_view(r@)) == self@,
            names_distinct(pairs_view(r@)),
    {
        proof {
            use_type_invariant(self);
        }
        let mut r: Vec<(String, bool)> = Vec::new();
        let mut i: usize = 0;
        while i < self.pairs.len()
            invariant
                i <= self.pairs@.len(),
                pairs_view(r@) == pairs_view(self.pairs@).take(i as int),
            decreases self.pairs@.len() - i,
        {
            let ghost before = r@;
            let item = (self.pairs[i].0.clone(), self.pairs[i].1);
            r.push(item);
            assert(r@ =~= before.push(item));
            assert(pairs_view(r@) =~= pairs_view(before).push((item.0@, item.1)));
            assert(pairs_view(r@) =~= pairs_view(self.pairs@).take(i + 1));
            i = i + 1;
        }
        assert(pairs_view(self.pairs@).take(self.pairs@.len() as int) =~= pairs_view(self.pairs@));
        r
    }
}

/// A line to draw: a name and its points (time, value).
pub struct GraphLineView {
    pub name: Seq<char>,
    pub points: Seq<(Seq<char>, Seq<char>)>,
}

/// A vertical marker at the time a cycle began.
pub struct CycleMarkerView {
    pub label: Seq<char>,
    pub time: Seq<char>,
}

/// The point a record gives on its line: its time and value; a record that
/// is not a number sits at value `0`.
pub open spec fn point_of(e: LogEntryView) -> (Seq<char>, Seq<char>) {
    match e {
        LogEntryView::Number { time, data, .. } => (time, data),
        _ => (e.time(), seq!['0']),
    }
}

/// The line of a group.
pub open spec fn line_of(g: EntryGroupView) -> GraphLineView {
    GraphLineView { name: g.name, points: g.entries.map_values(|e: LogEntryView| point_of(e)) }
}

/// The label of the marker of cycle `n`.
pub open spec fn cycle_label(n: u64) -> Seq<char> {
    "Cylce #"@ + decimal_text(n as nat)
}

/// The markers of the cycle records among `es`, in order.
pub open spec fn markers_of(es: Seq<LogEntryView>) -> Seq<CycleMarkerView>
    decreases es.len(),
{
    if es.len() == 0 {
        Seq::empty()
    } else {
        let prev = markers_of(es.drop_last());
        match es.last() {
            LogEntryView::CycleNumber { time, data, .. } => prev.push(
                CycleMarkerView { label: cycle_label(data), time },
            ),
            _ => prev,
        }
    }
}

/// Groups of these types can be drawn.
pub open spec fn is_plotted(data_type: Seq<char>) -> bool {
    data_type == "Number"@ || data_type == "CycleNumber"@
}

/// The switches once group `g` has been seen: a plotted name without a
/// switch gets one that is off.
pub open spec fn switches_after(t: Map<Seq<char>, bool>, g: EntryGroupView) -> Map<Seq<char>, bool> {
    if is_plotted(g.data_type) && !t.contains_key(g.name) {
        t.insert(g.name, false)
    } else {
        t
    }
}

/// What is drawn of `groups` under switches `t`, taken in order: the line of
/// each number group whose switch is on, the markers of each cycle group
/// whose switch is on, and the switches afterwards.
pub open spec fn plan_spec(groups: Seq<EntryGroupView>, t: Map<Seq<char>, bool>) -> (Seq<GraphLineView>, Seq<CycleMarkerView>, Map<Seq<char>, bool>)
    decreases groups.len(),
{
    if groups.len() == 0 {
        (Seq::empty(), Seq::empty(), t)
    } else {
        let prev = plan_spec(groups.drop_last(), t);
        let g = groups.last();
        let t2 = switches_after(prev.2, g);
        if g.data_type == "Number"@ && is_on(t2, g.name) {
            (prev.0.push(line_of(g)), prev.1, t2)
        } else if g.data_type == "CycleNumber"@ && is_on(t2, g.name) {
            (prev.0, prev.1 + markers_of(g.entries), t2)
        } else {
            (prev.0, prev.1, t2)
        }
    }
}

/// A line to draw.
pub struct GraphLine {
    pub name: String,
    pub points: Vec<(FloatLiteral, FloatLiteral)>,
}

/// A cycle marker to draw.
pub struct CycleMarker {
    pub label: String,
    pub time: FloatLiteral,
}

/// Everything to draw.
pub struct GraphPlan {
    pub lines: Vec<GraphLine>,
    pub markers: Vec<CycleMarker>,
}

pub open spec fn points_view(v: Seq<(FloatLiteral, FloatLiteral)>) -> Seq<(Seq<char>, Seq<char>)> {
    v.map_values(|p: (FloatLiteral, FloatLiteral)| (p.0@, p.1@))
}

impl View for GraphLine {
    type V = GraphLineView;

    open spec fn view(&self) -> GraphLineView {
        GraphLineView { name: self.name@, points: points_view(self.points@) }
    }
}

impl View for CycleMarker {
    type V = CycleMarkerView;

    open spec fn view(&self) -> CycleMarkerView {
        CycleMarkerView { label: self.label@, time: self.time@ }
    }
}

pub open spec fn lines_view(v: Seq<GraphLine>) -> Seq<GraphLineView> {
    v.map_values(|l: GraphLine| l@)
}

pub open spec fn markers_view(v: Seq<CycleMarker>) -> Seq<CycleMarkerView> {
    v.map_values(|m: CycleMarker| m@)
}

fn point(e: &LogEntry) -> (r: (FloatLiteral, FloatLiteral))
    ensures
        (r.0@, r.1@) == point_of(e@),
{
    match e {
        LogEntry::Number { time, data, .. } => (time.duplicate(), data.duplicate()),
        _ => (e.get_time().duplicate(), FloatLiteral::zero()),
    }
}

fn line_points(es: &Vec<LogEntry>) -> (r: Vec<(FloatLiteral, FloatLiteral)>)
    ensures
        points_view(r@) == crate::entry::entries_view(es@).map_values(|e: LogEntryView| point_of(e)),
{
    let mut r: Vec<(FloatLiteral, FloatLiteral)> = Vec::new();
    let mut i: usize = 0;
    while i < es.len()
        invariant
            i <= es@.len(),
            points_view(r@) == crate::entry::entries_view(es@.take(i as int)).map_values(|e: LogEntryView| point_of(e)),
        decreases es@.len() - i,
    {
        let ghost before = r@;
        let p = point(&es[i]);
        r.push(p);
        assert(r@ =~= before.push(p));
        assert(points_view(r@) =~= points_view(before).push((p.0@, p.1@)));
        assert(es@.take(i + 1) =~= es@.take(i as int).push(es@[i as int]));
        assert(crate::entry::entries_view(es@.take(i + 1)) =~= crate::entry::entries_view(es@.take(i as int)).push(es@[i as int]@));
        assert(points_view(r@) =~= crate::entry::entries_view(es@.take(i + 1)).map_values(|e: LogEntryView| point_of(e)));
        i = i + 1;
    }
    assert(es@.take(es@.len() as int) =~= es@);
    r
}

/// The label of the marker of cycle `n`.
pub fn cycle_marker_label(n: u64) -> (s: String)
    ensures
        s@ == cycle_label(n),
{
    let mut v = chars_of("Cylce #");
    let mut d = decimal_chars(n);
    v.append(&mut d);
    string_of(&v, 0, v.len())
}

fn push_markers(es: &Vec<LogEntry>, out: &mut Vec<CycleMarker>)
    ensures
        markers_view(final(out)@) == markers_view(old(out)@) + markers_of(crate::entry::entries_view(es@)),
{
    let ghost start = markers_view(out@);
    let mut i: usize = 0;
    while i < es.len()
        invariant
            i <= es@.len(),
            markers_view(out@) == start + markers_of(crate::entry::entries_view(es@.take(i as int))),
        decreases es@.len() - i,
    {
        let ghost before = out@;
        assert(es@.take(i + 1) =~= es@.take(i as int).push(es@[i as int]));
        assert(crate::entry::entries_view(es@.take(i + 1)) =~= crate::entry::entries_view(es@.take(i as int)).push(es@[i as int]@));
        assert(crate::entry::entries_view(es@.take(i + 1)).drop_last() =~= crate::entry::entries_view(es@.take(i as int)));
        match &es[i] {
            LogEntry::CycleNumber { time, data, .. } => {
                let m = CycleMarker { label: cycle_marker_label(*data), time: time.duplicate() };
                out.push(m);
                assert(out@ =~= before.push(m));
                assert(markers_view(out@) =~= markers_view(before).push(m@));
            },
            _ => {},
        }
        i = i + 1;
    }
    assert(es@.take(es@.len() as int) =~= es@);
}

/// Decides what to draw of the groups of a loaded log, giving each plotted
/// name that has no switch yet one that is off.
pub fn plan_graphs(groups: &Vec<EntryGroup>, toggles: &mut GraphToggles) -> (r: GraphPlan)
    ensures
        (lines_view(r.lines@), markers_view(r.markers@), final(toggles)@) == plan_spec(groups_view(groups@), old(toggles)@),
{
    let ghost t0 = toggles@;
    let mut lines: Vec<GraphLine> = Vec::new();
    let mut markers: Vec<CycleMarker> = Vec::new();
    let number = "Number".to_string();
    let cycle = "CycleNumber".to_string();
    let mut i: usize = 0;
    while i < groups.len()
        invariant
            i <= groups@.len(),
            number@ == "Number"@,
            cycle@ == "CycleNumber"@,
            (lines_view(lines@), markers_view(markers@), toggles@) == plan_spec(groups_view(groups@).take(i as int), t0),
        decreases groups@.len() - i,
    {
        let g = &groups[i];
        let ghost gs = groups_view(groups@);
        assert(gs.take(i + 1).drop_last() =~= gs.take(i as int));
        assert(gs.take(i + 1).last() == g@);
        let is_number = g.data_type == number;
        let is_cycle = g.data_type == cycle;
        if is_number || is_cycle {
            toggles.insert_if_absent(&g.name);
        }
        if is_number && toggles.is_enabled(&g.name) {
            let ghost before = lines@;
            let line = GraphLine { name: g.name.clone(), points: line_points(&g.entries) };
            lines.push(line);
            assert(lines@ =~= before.push(line));
            assert(lines_view(lines@) =~= lines_view(before).push(line@));
            assert(line@ == line_of(g@));
        } else if is_cycle && toggles.is_enabled(&g.name) {
            push_markers(&g.entries, &mut markers);
        }
        i = i + 1;
    }
    assert(groups_view(groups@).take(groups@.len() as int) =~= groups_view(groups@));
    GraphPlan { lines, markers }
}

/// Drawing keeps every switch that is set, gives every plotted name a
/// switch, off where it had none, and gives no other name one.
pub proof fn law_plan_switches(groups: Seq<EntryGroupView>, t: Map<Seq<char>, bool>, n: Seq<char>)
    ensures
        t.contains_key(n) ==> plan_spec(groups, t).2.contains_key(n) && plan_spec(groups, t).2[n] == t[n],
        plan_spec(groups, t).2.contains_key(n) <==> (t.contains_key(n) || exists|i: int|
            0 <= i < groups.len() && is_plotted((#[trigger] groups[i]).data_type) && groups[i].name == n),
        !t.contains_key(n) && plan_spec(groups, t).2.contains_key(n) ==> !plan_spec(groups, t).2[n],
    decreases groups.len(),
{
    if groups.len() > 0 {
        let p = groups.drop_last();
        law_plan_switches(p, t, n);
        let g = groups.last();
        if exists|i: int| 0 <= i < p.len() && is_plotted((#[trigger] p[i]).data_type) && p[i].name == n {
            let i = choose|i: int| 0 <= i < p.len() && is_plotted((#[trigger] p[i]).data_type) && p[i].name == n;
            assert(groups[i] == p[i]);
        }
        if exists|i: int| 0 <= i < groups.len() && is_plotted((#[trigger] groups[i]).data_type) && groups[i].name == n {
            let i = choose|i: int| 0 <= i < groups.len() && is_plotted((#[trigger] groups[i]).data_type) && groups[i].name == n;
            if i < p.len() {
                assert(p[i] == groups[i]);
            } else {
                assert(groups[i] == g);
            }
        }
    }
}

proof fn lemma_plan_switches_complete(groups: Seq<EntryGroupView>, t: Map<Seq<char>, bool>)
    requires
        forall|i: int| 0 <= i < groups.len() && is_plotted((#[trigger] groups[i]).data_type) ==> t.contains_key(groups[i].name),
    ensures
        plan_spec(groups, t).2 == t,
    decreases groups.len(),
{
    if groups.len() > 0 {
        let p = groups.drop_last();
        assert forall|i: int| 0 <= i < p.len() && is_plotted((#[trigger] p[i]).data_type) implies t.contains_key(p[i].name) by {
            assert(groups[i] == p[i]);
        }
        lemma_plan_switches_complete(p, t);
        assert(groups[groups.len() - 1] == groups.last());
    }
}

/// Drawing again with the switches that drawing left changes none of them.
pub proof fn law_plan_switches_settle(groups: Seq<EntryGroupView>, t: Map<Seq<char>, bool>)
    ensures
        plan_spec(groups, plan_spec(groups, t).2).2 == plan_spec(groups, t).2,
{
    let t2 = plan_spec(groups, t).2;
    assert forall|i: int| 0 <= i < groups.len() && is_plotted((#[trigger] groups[i]).data_type) implies t2.contains_key(groups[i].name) by {
        law_plan_switches(groups, t, groups[i].name);
    }
    lemma_plan_switches_complete(groups, t2);
}

/// With no switch on, nothing is drawn.
pub proof fn law_plan_all_off(groups: Seq<EntryGroupView>, t: Map<Seq<char>, bool>)
    requires
        forall|n: Seq<char>| !is_on(t, n),
    ensures
        plan_spec(groups, t).0.len() == 0,
        plan_spec(groups, t).1.len() == 0,
    decreases groups.len(),
{
    if groups.len() > 0 {
        law_plan_all_off(groups.drop_last(), t);
        let prev = plan_spec(groups.drop_last(), t);
        law_plan_switches(groups.drop_last(), t, groups.last().name);
        assert(!is_on(t, groups.last().name));
    }
}

proof fn lemma_plan_on_kept(groups: Seq<EntryGroupView>, t: Map<Seq<char>, bool>, n: Seq<char>)
    ensures
        is_on(plan_spec(groups, t).2, n) == is_on(t, n),
{
    law_plan_switches(groups, t, n);
}

/// A number group that is drawn: its switch is on.
pub open spec fn draws_line(t: Map<Seq<char>, bool>, g: EntryGroupView) -> bool {
    g.data_type == "Number"@ && is_on(t, g.name)
}

/// A cycle group that is drawn: its switch is on.
pub open spec fn draws_markers(t: Map<Seq<char>, bool>, g: EntryGroupView) -> bool {
    g.data_type == "CycleNumber"@ && is_on(t, g.name)
}

/// The markers of the groups `gs`, one group after the other.
pub open spec fn markers_of_groups(gs: Seq<EntryGroupView>) -> Seq<CycleMarkerView>
    decreases gs.len(),
{
    if gs.len() == 0 {
        Seq::empty()
    } else {
        markers_of_groups(gs.drop_last()) + markers_of(gs.last().entries)
    }
}

/// Every number group whose switch is on is drawn as its line, in the order
/// of the groups, and no other line is drawn; the markers are those of every
/// cycle group whose switch is on, group after group.
pub proof fn law_plan_draws_every_enabled_series(groups: Seq<EntryGroupView>, t: Map<Seq<char>, bool>)
    ensures
        plan_spec(groups, t).0 == groups.filter(|g: EntryGroupView| draws_line(t, g)).map_values(
            |g: EntryGroupView| line_of(g),
        ),
        plan_spec(groups, t).1 == markers_of_groups(groups.filter(|g: EntryGroupView| draws_markers(t, g))),
    decreases groups.len(),
{
    let f = |g: EntryGroupView| draws_line(t, g);
    let c = |g: EntryGroupView| draws_markers(t, g);
    let m = |g: EntryGroupView| line_of(g);
    reveal(Seq::filter);
    if groups.len() == 0 {
        assert(groups.filter(f) =~= Seq::<EntryGroupView>::empty());
        assert(groups.filter(f).map_values(m) =~= Seq::<GraphLineView>::empty());
        assert(groups.filter(c) =~= Seq::<EntryGroupView>::empty());
    } else {
        let p = groups.drop_last();
        let g = groups.last();
        law_plan_draws_every_enabled_series(p, t);
        let prev = plan_spec(p, t);
        lemma_plan_on_kept(p, t, g.name);
        let t2 = switches_after(prev.2, g);
        assert(is_on(t2, g.name) == is_on(t, g.name));
        let sub = p.filter(f);
        if f(g) {
            assert(groups.filter(f) == sub.push(g));
            assert(sub.push(g).map_values(m) =~= sub.map_values(m).push(m(g)));
        } else {
            assert(groups.filter(f) == sub);
        }
        let subc = p.filter(c);
        reveal_strlit("Number");
        reveal_strlit("CycleNumber");
        assert("Number"@.len() != "CycleNumber"@.len());
        if c(g) {
            assert(groups.filter(c) == subc.push(g));
            assert(subc.push(g).drop_last() =~= subc);
            assert(subc.push(g).last() == g);
            assert(markers_of_groups(subc.push(g)) == markers_of_groups(subc) + markers_of(g.entries));
        } else {
            assert(groups.filter(c) == subc);
        }
    }
}

/// The markers of a group's records are one for each cycle record, in order,
/// labelled with its cycle number and placed at its time.
pub proof fn law_markers_are_cycle_records(es: Seq<LogEntryView>)
    ensures
        markers_of(es) == es.filter(|e: LogEntryView| e is CycleNumber).map_values(
            |e: LogEntryView| CycleMarkerView { label: cycle_label(e->CycleNumber_data), time: e.time() },
        ),
    decreases es.len(),
{
    let f = |e: LogEntryView| e is CycleNumber;
    let m = |e: LogEntryView| CycleMarkerView { label: cycle_label(e->CycleNumber_data), time: e.time() };
    reveal(Seq::filter);
    if es.len() == 0 {
        assert(es.filter(f) =~= Seq::<LogEntryView>::empty());
        assert(es.filter(f).map_values(m) =~= Seq::<CycleMarkerView>::empty());
    } else {
        law_markers_are_cycle_records(es.drop_last());
        let sub = es.drop_last().filter(f);
        if f(es.last()) {
            assert(es.filter(f) == sub.push(es.last()));
            assert(sub.push(es.last()).map_values(m) =~= sub.map_values(m).push(m(es.last())));
        } else {
            assert(es.filter(f) == sub);
        }
    }
}

} // verus!
