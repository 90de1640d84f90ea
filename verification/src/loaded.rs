//! A whole log, read line by line, with its records grouped by name and type.
use vstd::prelude::*;
use crate::entry::{
    line_parts, entries_view, is_fatal_line, line_is_fatal, parse_line, parse_line_spec, LogEntry, LogEntryView,
};
use crate::text::{chars_of, lemma_split_on_append, split_chars, split_on};

verus! {

broadcast use vstd::string::group_string_axioms;

/// The records that `lines` hold, in order.
pub open spec fn entries_of_lines(lines: Seq<Seq<char>>) -> Seq<LogEntryView>
    decreases lines.len(),
{
    if lines.len() == 0 {
        Seq::empty()
    } else {
        let prev = entries_of_lines(lines.drop_last());
        match parse_line_spec(lines.last()) {
            Some(e) => prev.push(e),
            None => prev,
        }
    }
}

/// The lines of a log.
pub open spec fn log_lines(log: Seq<char>) -> Seq<Seq<char>> {
    split_on(log, '\n')
}

/// The records of a log: one for each line that holds one, in order.
pub open spec fn log_entries(log: Seq<char>) -> Seq<LogEntryView> {
    entries_of_lines(log_lines(log))
}

/// A log can be loaded: none of its lines is a `CycleNumber` record whose
/// value is not a `u64`.
pub open spec fn log_loads(log: Seq<char>) -> bool {
    forall|i: int| 0 <= i < log_lines(log).len() ==> !line_is_fatal(#[trigger] log_lines(log)[i])
}

/// The records of `es` with the given name and type, in order.
pub open spec fn entries_with_key(es: Seq<LogEntryView>, name: Seq<char>, data_type: Seq<char>) -> Seq<LogEntryView>
    decreases es.len(),
{
    if es.len() == 0 {
        Seq::empty()
    } else {
        let prev = entries_with_key(es.drop_last(), name, data_type);
        if es.last().name() == name && es.last().data_type() == data_type {
            prev.push(es.last())
        } else {
            prev
        }
    }
}

/// The records of one name and type.
pub struct EntryGroupView {
    pub name: Seq<char>,
    pub data_type: Seq<char>,
    pub entries: Seq<LogEntryView>,
}

/// No two groups have the same name and type.
pub open spec fn keys_distinct(groups: Seq<EntryGroupView>) -> bool {
    forall|i: int, j: int|
        0 <= i < groups.len() && 0 <= j < groups.len() && i != j ==> !(#[trigger] groups[i].name
            == #[trigger] groups[j].name && groups[i].data_type == groups[j].data_type)
}

/// Each group holds exactly the records of `es` with its name and type, in
/// order, and at least one.
pub open spec fn groups_exact(groups: Seq<EntryGroupView>, es: Seq<LogEntryView>) -> bool {
    forall|i: int|
        0 <= i < groups.len() ==> (#[trigger] groups[i]).entries == entries_with_key(
            es,
            groups[i].name,
            groups[i].data_type,
        ) && groups[i].entries.len() > 0
}

/// Each record of `es` has a group of its name and type.
pub open spec fn groups_cover(groups: Seq<EntryGroupView>, es: Seq<LogEntryView>) -> bool {
    forall|k: int|
        0 <= k < es.len() ==> exists|i: int|
            0 <= i < groups.len() && (#[trigger] groups[i]).name == (#[trigger] es[k]).name()
                && groups[i].data_type == es[k].data_type()
}

/// `groups` sorts the records `es` by name and type: one group for each
/// name and type that occurs, holding exactly the records of that name and
/// type, in log order.
pub open spec fn groups_correct(groups: Seq<EntryGroupView>, es: Seq<LogEntryView>) -> bool {
    &&& keys_distinct(groups)
    &&& groups_exact(groups, es)
    &&& groups_cover(groups, es)
}

proof fn lemma_cover_push(
    old_gs: Seq<EntryGroupView>,
    new_gs: Seq<EntryGroupView>,
    es: Seq<LogEntryView>,
    x: LogEntryView,
    idx: int,
)
    requires
        groups_cover(old_gs, es),
        new_gs.len() >= old_gs.len(),
        forall|i: int| 0 <= i < old_gs.len() ==> #[trigger] new_gs[i].name == old_gs[i].name && new_gs[i].data_type == old_gs[i].data_type,
        0 <= idx < new_gs.len(),
        new_gs[idx].name == x.name(),
        new_gs[idx].data_type == x.data_type(),
    ensures
        groups_cover(new_gs, es.push(x)),
{
    assert forall|k: int| 0 <= k < es.push(x).len() implies exists|i: int|
        0 <= i < new_gs.len() && (#[trigger] new_gs[i]).name == (#[trigger] es.push(x)[k]).name()
            && new_gs[i].data_type == es.push(x)[k].data_type() by {
        if k == es.len() {
            assert(es.push(x)[k] == x);
            assert(new_gs[idx].name == es.push(x)[k].name());
        } else {
            assert(es.push(x)[k] == es[k]);
            let i = choose|i: int| 0 <= i < old_gs.len() && (#[trigger] old_gs[i]).name == (#[trigger] es[k]).name()
                && old_gs[i].data_type == es[k].data_type();
            assert(new_gs[i].name == old_gs[i].name);
        }
    }
}

/// The records of one name and type.
pub struct EntryGroup {
    pub name: String,
    pub data_type: String,
    pub entries: Vec<LogEntry>,
}

impl View for EntryGroup {
    type V = EntryGroupView;

    open spec fn view(&self) -> EntryGroupView {
        EntryGroupView { name: self.name@, data_type: self.data_type@, entries: entries_view(self.entries@) }
    }
}

pub open spec fn groups_view(gs: Seq<EntryGroup>) -> Seq<EntryGroupView> {
    gs.map_values(|g: EntryGroup| g@)
}

/// How many records the groups hold together.
pub open spec fn group_total(groups: Seq<EntryGroupView>) -> nat
    decreases groups.len(),
{
    if groups.len() == 0 {
        0
    } else {
        group_total(groups.drop_last()) + groups.last().entries.len()
    }
}

proof fn lemma_group_total_update(gs: Seq<EntryGroupView>, j: int, g: EntryGroupView)
    requires
        0 <= j < gs.len(),
    ensures
        group_total(gs.update(j, g)) + gs[j].entries.len() == group_total(gs) + g.entries.len(),
    decreases gs.len(),
{
    let u = gs.update(j, g);
    if j < gs.len() - 1 {
        lemma_group_total_update(gs.drop_last(), j, g);
        assert(u.drop_last() =~= gs.drop_last().update(j, g));
    } else {
        assert(u.drop_last() =~= gs.drop_last());
    }
}

proof fn lemma_with_key_push(es: Seq<LogEntryView>, x: LogEntryView, name: Seq<char>, data_type: Seq<char>)
    ensures
        entries_with_key(es.push(x), name, data_type) == if x.name() == name && x.data_type() == data_type {
            entries_with_key(es, name, data_type).push(x)
        } else {
            entries_with_key(es, name, data_type)
        },
{
    assert(es.push(x).drop_last() =~= es);
}

proof fn lemma_with_key_witness(es: Seq<LogEntryView>, name: Seq<char>, data_type: Seq<char>)
    requires
        entries_with_key(es, name, data_type).len() > 0,
    ensures
        exists|k: int| 0 <= k < es.len() && (#[trigger] es[k]).name() == name && es[k].data_type() == data_type,
    decreases es.len(),
{
    if es.last().name() == name && es.last().data_type() == data_type {
        assert(es[es.len() - 1] == es.last());
    } else {
        lemma_with_key_witness(es.drop_last(), name, data_type);
        let k = choose|k: int| 0 <= k < es.drop_last().len() && (#[trigger] es.drop_last()[k]).name() == name && es.drop_last()[k].data_type() == data_type;
        assert(es[k] == es.drop_last()[k]);
    }
}

/// Files record `e` under its name and type.
fn add_to_groups(groups: &mut Vec<EntryGroup>, e: &LogEntry, Ghost(es): Ghost<Seq<LogEntryView>>)
    requires
        groups_correct(groups_view(old(groups)@), es),
    ensures
        groups_correct(groups_view(final(groups)@), es.push(e@)),
        group_total(groups_view(final(groups)@)) == group_total(groups_view(old(groups)@)) + 1,
{
    let name = e.get_name();
    let data_type = e.get_data_type();
    let ghost x = e@;
    let ghost old_gs = groups_view(groups@);
    let mut j: usize = 0;
    while j < groups.len() && !(groups[j].name == *name && groups[j].data_type == data_type)
        invariant
            j <= groups@.len(),
            groups_view(groups@) == old_gs,
            name@ == x.name(),
            data_type@ == x.data_type(),
            forall|i: int| 0 <= i < j ==> !(old_gs[i].name == x.name() && old_gs[i].data_type == x.data_type()),
        decreases groups@.len() - j,
    {
        j = j + 1;
    }
    proof {
        assert forall|n: Seq<char>, d: Seq<char>| true implies #[trigger] entries_with_key(es.push(x), n, d)
            == (if x.name() == n && x.data_type() == d {
            entries_with_key(es, n, d).push(x)
        } else {
            entries_with_key(es, n, d)
        }) by {
            lemma_with_key_push(es, x, n, d);
        }
    }
    if j < groups.len() {
        assert(old_gs[j as int].name == x.name() && old_gs[j as int].data_type == x.data_type());
        let item = e.duplicate();
        groups[j].entries.push(item);
        proof {
            let new_gs = groups_view(groups@);
            assert(new_gs.len() == old_gs.len());
            assert forall|i: int| 0 <= i < new_gs.len() && i != j implies new_gs[i] == old_gs[i] by {}
            assert(new_gs[j as int].entries =~= old_gs[j as int].entries.push(x));
            assert(new_gs =~= old_gs.update(j as int, new_gs[j as int]));
            lemma_group_total_update(old_gs, j as int, new_gs[j as int]);
            assert forall|i: int| 0 <= i < new_gs.len() implies (#[trigger] new_gs[i]).entries == entries_with_key(
                es.push(x),
                new_gs[i].name,
                new_gs[i].data_type,
            ) && new_gs[i].entries.len() > 0 by {
                let _ = entries_with_key(es.push(x), new_gs[i].name, new_gs[i].data_type);
                if i != j {
                    assert(new_gs[i] == old_gs[i]);
                    assert(old_gs[i] == old_gs[i]);
                }
            }
            assert forall|i: int, k: int|
                0 <= i < new_gs.len() && 0 <= k < new_gs.len() && i != k implies !(#[trigger] new_gs[i].name
                    == #[trigger] new_gs[k].name && new_gs[i].data_type == new_gs[k].data_type) by {
                assert(old_gs[i] == old_gs[i] && old_gs[k] == old_gs[k]);
            }
            lemma_cover_push(old_gs, new_gs, es, x, j as int);
            assert(groups_correct(new_gs, es.push(x)));
        }
    } else {
        let mut members: Vec<LogEntry> = Vec::new();
        members.push(e.duplicate());
        let group = EntryGroup { name: name.clone(), data_type, entries: members };
        proof {
            if entries_with_key(es, x.name(), x.data_type()).len() > 0 {
                lemma_with_key_witness(es, x.name(), x.data_type());
                let k = choose|k: int| 0 <= k < es.len() && (#[trigger] es[k]).name() == x.name() && es[k].data_type() == x.data_type();
                let i = choose|i: int| 0 <= i < old_gs.len() && (#[trigger] old_gs[i]).name == (#[trigger] es[k]).name()
                    && old_gs[i].data_type == es[k].data_type();
                assert(false);
            }
            assert(entries_with_key(es, x.name(), x.data_type()) =~= Seq::<LogEntryView>::empty());
            assert(entries_view(group.entries@) =~= seq![x]);
        }
        groups.push(group);
        proof {
            let new_gs = groups_view(groups@);
            assert(new_gs =~= old_gs.push(group@));
            assert(new_gs.drop_last() =~= old_gs);
            assert forall|i: int| 0 <= i < new_gs.len() implies (#[trigger] new_gs[i]).entries == entries_with_key(
                es.push(x),
                new_gs[i].name,
                new_gs[i].data_type,
            ) && new_gs[i].entries.len() > 0 by {
                let _ = entries_with_key(es.push(x), new_gs[i].name, new_gs[i].data_type);
                if i < old_gs.len() {
                    assert(new_gs[i] == old_gs[i]);
                    assert(old_gs[i] == old_gs[i]);
                }
            }
            lemma_cover_push(old_gs, new_gs, es, x, old_gs.len() as int);
            assert forall|i: int, k: int|
                0 <= i < new_gs.len() && 0 <= k < new_gs.len() && i != k implies !(#[trigger] new_gs[i].name
                    == #[trigger] new_gs[k].name && new_gs[i].data_type == new_gs[k].data_type) by {
                if i < old_gs.len() {
                    assert(new_gs[i] == old_gs[i]);
                }
                if k < old_gs.len() {
                    assert(new_gs[k] == old_gs[k]);
                }
            }
            assert(groups_correct(new_gs, es.push(x)));
        }
    }
}

/// A log as loaded: its records in order, and the same records grouped by
/// name and type.
pub struct LoadedLog {
    entries: Vec<LogEntry>,
    groups: Vec<EntryGroup>,
}

impl View for LoadedLog {
    type V = (Seq<LogEntryView>, Seq<EntryGroupView>);

    closed spec fn view(&self) -> (Seq<LogEntryView>, Seq<EntryGroupView>) {
        (entries_view(self.entries@), groups_view(self.groups@))
    }
}

/// Whether every line of `log` can be read without stopping the load.
pub fn can_load(log: &str) -> (r: bool)
    ensures
        r == log_loads(log@),
{
    let v = chars_of(log);
    let lines = split_chars(&v, '\n');
    let mut i: usize = 0;
    while i < lines.len()
        invariant
            i <= lines@.len() == log_lines(log@).len(),
            forall|k: int| 0 <= k < lines@.len() ==> #[trigger] lines@[k]@ == log_lines(log@)[k],
            forall|k: int| 0 <= k < i ==> !line_is_fatal(#[trigger] log_lines(log@)[k]),
        decreases lines@.len() - i,
    {
        if is_fatal_line(&lines[i]) {
            assert(line_is_fatal(log_lines(log@)[i as int]));
            return false;
        }
        i = i + 1;
    }
    true
}

impl LoadedLog {
    #[verifier::type_invariant]
    spec fn well_formed(self) -> bool {
        &&& groups_correct(groups_view(self.groups@), entries_view(self.entries@))
        &&& group_total(groups_view(self.groups@)) == self.entries@.len()
    }

    /// Loads a log: the record of each line that holds one, in order, and
    /// those records grouped by name and type.
    pub fn from_text(log: &str) -> (r: LoadedLog)
        requires
            log_loads(log@),
        ensures
            r@.0 == log_entries(log@),
            groups_correct(r@.1, r@.0),
            group_total(r@.1) == r@.0.len(),
    {
        let v = chars_of(log);
        let lines = split_chars(&v, '\n');
        let ghost ls = log_lines(log@);
        let mut entries: Vec<LogEntry> = Vec::new();
        let mut groups: Vec<EntryGroup> = Vec::new();
        let mut i: usize = 0;
        while i < lines.len()
            invariant
                i <= lines@.len() == ls.len(),
                ls == log_lines(log@),
                log_loads(log@),
                forall|k: int| 0 <= k < lines@.len() ==> #[trigger] lines@[k]@ == ls[k],
                entries_view(entries@) == entries_of_lines(ls.take(i as int)),
                groups_correct(groups_view(groups@), entries_view(entries@)),
                group_total(groups_view(groups@)) == entries@.len(),
            decreases lines@.len() - i,
        {
            assert(ls.take(i + 1).drop_last() =~= ls.take(i as int));
            assert(ls.take(i + 1).last() == lines@[i as int]@);
            assert(!line_is_fatal(ls[i as int]));
            match parse_line(&lines[i]) {
                Some(e) => {
                    let ghost before = entries@;
                    add_to_groups(&mut groups, &e, Ghost(entries_view(entries@)));
                    entries.push(e);
                    assert(entries_view(entries@) =~= entries_view(before).push(e@));
                },
                None => {},
            }
            i = i + 1;
        }
        assert(ls.take(ls.len() as int) =~= ls);
        LoadedLog { entries, groups }
    }

    /// The records of the log, in order.
    pub fn entries(&self) -> (r: &Vec<LogEntry>)
        ensures
            entries_view(r@) == self@.0,
    {
        &self.entries
    }

    /// The records of the log grouped by name and type.
    pub fn groups(&self) -> (r: &Vec<EntryGroup>)
        ensures
            groups_view(r@) == self@.1,
            groups_correct(self@.1, self@.0),
            group_total(self@.1) == self@.0.len(),
    {
        proof {
            use_type_invariant(self);
        }
        &self.groups
    }
}

proof fn lemma_entries_of_lines_concat(x: Seq<Seq<char>>, y: Seq<Seq<char>>)
    ensures
        entries_of_lines(x + y) == entries_of_lines(x) + entries_of_lines(y),
    decreases y.len(),
{
    if y.len() == 0 {
        assert(x + y =~= x);
        assert(entries_of_lines(x) + entries_of_lines(y) =~= entries_of_lines(x));
    } else {
        lemma_entries_of_lines_concat(x, y.drop_last());
        assert((x + y).drop_last() =~= x + y.drop_last());
        assert((x + y).last() == y.last());
        match parse_line_spec(y.last()) {
            Some(e) => {
                assert((entries_of_lines(x) + entries_of_lines(y.drop_last())).push(e) =~= entries_of_lines(x)
                    + entries_of_lines(y.drop_last()).push(e));
            },
            None => {},
        }
    }
}

/// Logs are read line by line: the records of two logs written one after
/// the other on separate lines are the records of the first followed by
/// those of the second, and the two can be loaded exactly when each can.
pub proof fn law_log_concat(a: Seq<char>, b: Seq<char>)
    ensures
        log_entries(a + seq!['\n'] + b) == log_entries(a) + log_entries(b),
        log_loads(a + seq!['\n'] + b) == (log_loads(a) && log_loads(b)),
{
    lemma_split_on_append(a, b, '\n');
    lemma_entries_of_lines_concat(log_lines(a), log_lines(b));
    let la = log_lines(a);
    let lb = log_lines(b);
    let l = log_lines(a + seq!['\n'] + b);
    assert(l == la + lb);
    if log_loads(a) && log_loads(b) {
        assert forall|i: int| 0 <= i < l.len() implies !line_is_fatal(#[trigger] l[i]) by {
            if i < la.len() {
                assert(l[i] == la[i]);
            } else {
                assert(l[i] == lb[i - la.len()]);
            }
        }
    }
    if log_loads(a + seq!['\n'] + b) {
        assert forall|i: int| 0 <= i < la.len() implies !line_is_fatal(#[trigger] la[i]) by {
            assert(l[i] == la[i]);
        }
        assert forall|i: int| 0 <= i < lb.len() implies !line_is_fatal(#[trigger] lb[i]) by {
            assert(l[i + la.len()] == lb[i]);
        }
    }
}

proof fn lemma_with_key_contains(es: Seq<LogEntryView>, name: Seq<char>, data_type: Seq<char>, e: LogEntryView)
    ensures
        entries_with_key(es, name, data_type).contains(e) <==> (es.contains(e) && e.name() == name
            && e.data_type() == data_type),
    decreases es.len(),
{
    if es.len() > 0 {
        let p = es.drop_last();
        lemma_with_key_contains(p, name, data_type, e);
        let w = entries_with_key(p, name, data_type);
        if es.contains(e) && !p.contains(e) {
            let k = choose|k: int| 0 <= k < es.len() && es[k] == e;
            if k < p.len() {
                assert(p[k] == e);
            }
            assert(es.last() == e);
        }
        if p.contains(e) {
            let k = choose|k: int| 0 <= k < p.len() && p[k] == e;
            assert(es[k] == e);
        }
        if es.last().name() == name && es.last().data_type() == data_type {
            if w.push(es.last()).contains(e) && e != es.last() {
                let k = choose|k: int| 0 <= k < w.push(es.last()).len() && w.push(es.last())[k] == e;
                assert(w[k] == e);
            }
            if w.contains(e) {
                let k = choose|k: int| 0 <= k < w.len() && w[k] == e;
                assert(w.push(es.last())[k] == e);
            }
            assert(w.push(es.last())[w.len() as int] == es.last());
        }
        assert(es[es.len() - 1] == es.last());
    }
}

/// Each record of a loaded log lies in exactly one group, the one of its
/// name and type, and a group holds only records of the log.
pub proof fn law_record_in_one_group(groups: Seq<EntryGroupView>, es: Seq<LogEntryView>, e: LogEntryView)
    requires
        groups_correct(groups, es),
    ensures
        es.contains(e) ==> exists|i: int| 0 <= i < groups.len() && (#[trigger] groups[i]).entries.contains(e),
        forall|i: int|
            0 <= i < groups.len() && (#[trigger] groups[i]).entries.contains(e) ==> es.contains(e)
                && groups[i].name == e.name() && groups[i].data_type == e.data_type(),
        forall|i: int, j: int|
            0 <= i < groups.len() && 0 <= j < groups.len() && (#[trigger] groups[i]).entries.contains(e)
                && (#[trigger] groups[j]).entries.contains(e) ==> i == j,
{
    assert forall|i: int|
        0 <= i < groups.len() && (#[trigger] groups[i]).entries.contains(e) implies es.contains(e)
            && groups[i].name == e.name() && groups[i].data_type == e.data_type() by {
        lemma_with_key_contains(es, groups[i].name, groups[i].data_type, e);
    }
    if es.contains(e) {
        let k = choose|k: int| 0 <= k < es.len() && es[k] == e;
        let i = choose|i: int|
            0 <= i < groups.len() && (#[trigger] groups[i]).name == (#[trigger] es[k]).name()
                && groups[i].data_type == es[k].data_type();
        lemma_with_key_contains(es, groups[i].name, groups[i].data_type, e);
        assert(groups[i].entries.contains(e));
    }
    assert forall|i: int, j: int|
        0 <= i < groups.len() && 0 <= j < groups.len() && (#[trigger] groups[i]).entries.contains(e)
            && (#[trigger] groups[j]).entries.contains(e) implies i == j by {
        lemma_with_key_contains(es, groups[i].name, groups[i].data_type, e);
        lemma_with_key_contains(es, groups[j].name, groups[j].data_type, e);
    }
}

/// The lines that hold a record.
pub open spec fn reads_record(line: Seq<char>) -> bool {
    parse_line_spec(line) is Some
}

/// The record a line holds.
pub open spec fn record_of(line: Seq<char>) -> LogEntryView {
    parse_line_spec(line)->0
}

proof fn lemma_entries_of_lines_filter(lines: Seq<Seq<char>>)
    ensures
        entries_of_lines(lines) == lines.filter(|l: Seq<char>| reads_record(l)).map_values(
            |l: Seq<char>| record_of(l),
        ),
    decreases lines.len(),
{
    let f = |l: Seq<char>| reads_record(l);
    let m = |l: Seq<char>| record_of(l);
    reveal(Seq::filter);
    if lines.len() == 0 {
        assert(lines.filter(f) =~= Seq::<Seq<char>>::empty());
        assert(lines.filter(f).map_values(m) =~= Seq::<LogEntryView>::empty());
    } else {
        lemma_entries_of_lines_filter(lines.drop_last());
        let sub = lines.drop_last().filter(f);
        if f(lines.last()) {
            assert(lines.filter(f) == sub.push(lines.last()));
            assert(sub.push(lines.last()).map_values(m) =~= sub.map_values(m).push(m(lines.last())));
        } else {
            assert(lines.filter(f) == sub);
        }
    }
}

/// Loading keeps the record of every line that holds one, and only those, in
/// the order of the lines: the records of a log are the records of its
/// readable lines, each as that line alone reads.
pub proof fn law_log_entries_are_line_records(log: Seq<char>)
    ensures
        log_entries(log) == log_lines(log).filter(|l: Seq<char>| reads_record(l)).map_values(
            |l: Seq<char>| record_of(l),
        ),
{
    lemma_entries_of_lines_filter(log_lines(log));
}

/// A log of one line that holds record `e` loads as just `e`.
pub proof fn law_single_line_log(line: Seq<char>, e: LogEntryView)
    requires
        !line.contains('\n'),
        parse_line_spec(line) == Some(e),
    ensures
        log_entries(line) == seq![e],
{
    crate::text::lemma_split_on_single(line, '\n');
    let ls = log_lines(line);
    assert(ls == seq![line]);
    assert(ls.drop_last() =~= Seq::<Seq<char>>::empty());
    assert(entries_of_lines(ls.drop_last()) =~= Seq::<LogEntryView>::empty());
}

/// A log loads whenever none of its lines is a `CycleNumber` record: values
/// of every other type that cannot be read take their defaults instead.
pub proof fn law_loads_without_cycle_numbers(log: Seq<char>)
    requires
        forall|i: int|
            0 <= i < log_lines(log).len() ==> !(line_parts(#[trigger] log_lines(log)[i]) matches Some((t, n, ty, d))
                && ty == "CycleNumber"@),
    ensures
        log_loads(log),
{
}

} // verus!
