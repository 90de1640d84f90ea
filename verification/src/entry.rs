//! Log records and the reading of one log line
//! `[time] name | type : data`.
use vstd::prelude::*;
use crate::field::{field_state_spec, FieldObjectView, FieldState};
use crate::float_text::FloatLiteral;
use crate::number::{
    is_float_literal, parse_bool, parse_bool_spec, parse_i32, parse_i32_spec, parse_u64,
    parse_u64_spec,
};
use crate::number::{is_float_char, lemma_float_literal_chars};
use crate::text::{
    chars_eq, chars_of, lemma_first_match_by_char, remove_first,
    remove_first_chars, split_once, split_once_chars, string_of,
};

verus! {

broadcast use vstd::string::group_string_axioms;

/// What a log record is: its time and name as they were written, and its
/// value.
#[allow(inconsistent_fields)]
pub enum LogEntryView {
    Number { time: Seq<char>, name: Seq<char>, data: Seq<char> },
    CycleNumber { time: Seq<char>, name: Seq<char>, data: u64 },
    String { time: Seq<char>, name: Seq<char>, data: Seq<char> },
    Color { time: Seq<char>, name: Seq<char>, data: i32 },
    Bool { time: Seq<char>, name: Seq<char>, data: bool },
    FieldState { time: Seq<char>, name: Seq<char>, data: Seq<FieldObjectView> },
    Unkown { time: Seq<char>, data_type: Seq<char>, name: Seq<char>, data: Seq<char> },
}

impl LogEntryView {
    pub open spec fn time(self) -> Seq<char> {
        match self {
            LogEntryView::Number { time, .. } => time,
            LogEntryView::CycleNumber { time, .. } => time,
            LogEntryView::String { time, .. } => time,
            LogEntryView::Color { time, .. } => time,
            LogEntryView::Bool { time, .. } => time,
            LogEntryView::FieldState { time, .. } => time,
            LogEntryView::Unkown { time, .. } => time,
        }
    }

    pub open spec fn name(self) -> Seq<char> {
        match self {
            LogEntryView::Number { name, .. } => name,
            LogEntryView::CycleNumber { name, .. } => name,
            LogEntryView::String { name, .. } => name,
            LogEntryView::Color { name, .. } => name,
            LogEntryView::Bool { name, .. } => name,
            LogEntryView::FieldState { name, .. } => name,
            LogEntryView::Unkown { name, .. } => name,
        }
    }

    /// The type written in the record's line.
    pub open spec fn data_type(self) -> Seq<char> {
        match self {
            LogEntryView::Number { .. } => "Number"@,
            LogEntryView::CycleNumber { .. } => "CycleNumber"@,
            LogEntryView::String { .. } => "String"@,
            LogEntryView::Color { .. } => "Color"@,
            LogEntryView::Bool { .. } => "Bool"@,
            LogEntryView::FieldState { .. } => "FieldState"@,
            LogEntryView::Unkown { data_type, .. } => data_type,
        }
    }
}

/// One record of a log.
#[allow(inconsistent_fields)]
pub enum LogEntry {
    Number { time: FloatLiteral, name: String, data: FloatLiteral },
    CycleNumber { time: FloatLiteral, name: String, data: u64 },
    String { time: FloatLiteral, name: String, data: String },
    Color { time: FloatLiteral, name: String, data: i32 },
    Bool { time: FloatLiteral, name: String, data: bool },
    FieldState { time: FloatLiteral, name: String, data: FieldState },
    Unkown { time: FloatLiteral, data_type: String, name: String, data: String },
}

impl View for LogEntry {
    type V = LogEntryView;

    open spec fn view(&self) -> LogEntryView {
        match self {
            LogEntry::Number { time, name, data } => LogEntryView::Number {
                time: time@,
                name: name@,
                data: data@,
            },
            LogEntry::CycleNumber { time, name, data } => LogEntryView::CycleNumber {
                time: time@,
                name: name@,
                data: *data,
            },
            LogEntry::String { time, name, data } => LogEntryView::String {
                time: time@,
                name: name@,
                data: data@,
            },
            LogEntry::Color { time, name, data } => LogEntryView::Color {
                time: time@,
                name: name@,
                data: *data,
            },
            LogEntry::Bool { time, name, data } => LogEntryView::Bool {
                time: time@,
                name: name@,
                data: *data,
            },
            LogEntry::FieldState { time, name, data } => LogEntryView::FieldState {
                time: time@,
                name: name@,
                data: data@,
            },
            LogEntry::Unkown { time, data_type, name, data } => LogEntryView::Unkown {
                time: time@,
                data_type: data_type@,
                name: name@,
                data: data@,
            },
        }
    }
}

/// The views of a sequence of records.
pub open spec fn entries_view(es: Seq<LogEntry>) -> Seq<LogEntryView> {
    es.map_values(|e: LogEntry| e@)
}

/// The record that a line with these parts holds. The value is read
/// according to the type: a number that is not a float literal counts as
/// `0`, a colour that is not an `i32` as `0`, and a boolean as `true` only
/// where the text is `true`; an unknown type keeps the text.
pub open spec fn entry_of(time: Seq<char>, name: Seq<char>, data_type: Seq<char>, data: Seq<char>) -> LogEntryView {
    if data_type == "String"@ {
        LogEntryView::String { time, name, data }
    } else if data_type == "Number"@ {
        LogEntryView::Number { time, name, data: if is_float_literal(data) { data } else { seq!['0'] } }
    } else if data_type == "Bool"@ {
        LogEntryView::Bool { time, name, data: parse_bool_spec(data) == Some(true) }
    } else if data_type == "CycleNumber"@ {
        LogEntryView::CycleNumber {
            time,
            name,
            data: match parse_u64_spec(data) {
                Ok(n) => n as u64,
                Err(_) => 0,
            },
        }
    } else if data_type == "Color"@ {
        LogEntryView::Color {
            time,
            name,
            data: match parse_i32_spec(data) {
                Ok(n) => n as i32,
                Err(_) => 0,
            },
        }
    } else if data_type == "FieldState"@ {
        LogEntryView::FieldState { time, name, data: field_state_spec(data) }
    } else {
        LogEntryView::Unkown { time, data_type, name, data }
    }
}

/// The four parts of a log line `[time] name | type : data`: the data is
/// what follows the first ` : `, the type what lies between the first ` | `
/// and it, and the time and name are what remains, split at the first `] `
/// once the first `[` has been taken out. A line without these separators,
/// or whose time is not a float literal, holds no record.
pub open spec fn line_parts(line: Seq<char>) -> Option<(Seq<char>, Seq<char>, Seq<char>, Seq<char>)> {
    match split_once(line, " : "@) {
        None => None,
        Some((prefix, data)) => match split_once(prefix, " | "@) {
            None => None,
            Some((time_name, data_type)) => match split_once(remove_first(time_name, '['), "] "@) {
                None => None,
                Some((time, name)) => {
                    if is_float_literal(time) {
                        Some((time, name, data_type, data))
                    } else {
                        None
                    }
                },
            },
        },
    }
}

/// The record that a line holds, if any.
pub open spec fn parse_line_spec(line: Seq<char>) -> Option<LogEntryView> {
    match line_parts(line) {
        Some((time, name, data_type, data)) => Some(entry_of(time, name, data_type, data)),
        None => None,
    }
}

/// A `CycleNumber` record whose value is not a `u64`: reading such a line is
/// an error that stops the load.
pub open spec fn line_is_fatal(line: Seq<char>) -> bool {
    match line_parts(line) {
        Some((time, name, data_type, data)) => data_type == "CycleNumber"@ && parse_u64_spec(data) is Err,
        None => false,
    }
}

fn make_entry(time: FloatLiteral, name: &Vec<char>, data_type: &Vec<char>, data: &Vec<char>) -> (r: LogEntry)
    requires
        !(data_type@ == "CycleNumber"@ && parse_u64_spec(data@) is Err),
    ensures
        r@ == entry_of(time@, name@, data_type@, data@),
{
    let name_s = string_of(name, 0, name.len());
    let data_s = string_of(data, 0, data.len());
    assert(name@.subrange(0, name@.len() as int) =~= name@);
    assert(data@.subrange(0, data@.len() as int) =~= data@);
    if chars_eq(data_type, &chars_of("String")) {
        LogEntry::String { time, name: name_s, data: data_s }
    } else if chars_eq(data_type, &chars_of("Number")) {
        let value = match FloatLiteral::from_chars(data) {
            Some(f) => f,
            None => FloatLiteral::zero(),
        };
        LogEntry::Number { time, name: name_s, data: value }
    } else if chars_eq(data_type, &chars_of("Bool")) {
        let value = match parse_bool(data) {
            Some(b) => b,
            None => false,
        };
        LogEntry::Bool { time, name: name_s, data: value }
    } else if chars_eq(data_type, &chars_of("CycleNumber")) {
        let value = match parse_u64(data) {
            Ok(n) => n,
            Err(_) => 0,
        };
        LogEntry::CycleNumber { time, name: name_s, data: value }
    } else if chars_eq(data_type, &chars_of("Color")) {
        let value = match parse_i32(data) {
            Ok(n) => n,
            Err(_) => 0,
        };
        LogEntry::Color { time, name: name_s, data: value }
    } else if chars_eq(data_type, &chars_of("FieldState")) {
        LogEntry::FieldState { time, name: name_s, data: FieldState::from_chars(data) }
    } else {
        let dt = string_of(data_type, 0, data_type.len());
        assert(data_type@.subrange(0, data_type@.len() as int) =~= data_type@);
        LogEntry::Unkown { time, data_type: dt, name: name_s, data: data_s }
    }
}

/// Splits a log line into its time, name, type and data.
fn split_line(line: &Vec<char>) -> (r: Option<(FloatLiteral, Vec<char>, Vec<char>, Vec<char>)>)
    ensures
        match line_parts(line@) {
            Some((time, name, data_type, data)) => r matches Some((t, n, d, x)) && t@ == time && n@ == name
                && d@ == data_type && x@ == data,
            None => r is None,
        },
{
    let (prefix, data) = match split_once_chars(line, &chars_of(" : ")) {
        Some(p) => p,
        None => {
            return None;
        },
    };
    let (time_name, data_type) = match split_once_chars(&prefix, &chars_of(" | ")) {
        Some(p) => p,
        None => {
            return None;
        },
    };
    let unbracketed = remove_first_chars(&time_name, '[');
    let (time_text, name) = match split_once_chars(&unbracketed, &chars_of("] ")) {
        Some(p) => p,
        None => {
            return None;
        },
    };
    let time = match FloatLiteral::from_chars(&time_text) {
        Some(t) => t,
        None => {
            return None;
        },
    };
    Some((time, name, data_type, data))
}

/// Reads the record a log line holds.
pub fn parse_line(line: &Vec<char>) -> (r: Option<LogEntry>)
    requires
        !line_is_fatal(line@),
    ensures
        match parse_line_spec(line@) {
            Some(e) => r matches Some(x) && x@ == e,
            None => r is None,
        },
{
    match split_line(line) {
        Some((time, name, data_type, data)) => Some(make_entry(time, &name, &data_type, &data)),
        None => None,
    }
}

/// Whether reading the line stops the load.
pub fn is_fatal_line(line: &Vec<char>) -> (r: bool)
    ensures
        r == line_is_fatal(line@),
{
    match split_line(line) {
        Some((_, _, data_type, data)) => chars_eq(&data_type, &chars_of("CycleNumber")) && parse_u64(&data).is_err(),
        None => false,
    }
}

impl LogEntry {
    /// The time of the record.
    pub fn get_time(&self) -> (t: &FloatLiteral)
        ensures
            t@ == self@.time(),
    {
        match self {
            LogEntry::Number { time, .. } => time,
            LogEntry::CycleNumber { time, .. } => time,
            LogEntry::String { time, .. } => time,
            LogEntry::Color { time, .. } => time,
            LogEntry::Bool { time, .. } => time,
            LogEntry::FieldState { time, .. } => time,
            LogEntry::Unkown { time, .. } => time,
        }
    }

    /// The name of the record.
    pub fn get_name(&self) -> (n: &String)
        ensures
            n@ == self@.name(),
    {
        match self {
            LogEntry::Number { name, .. } => name,
            LogEntry::CycleNumber { name, .. } => name,
            LogEntry::String { name, .. } => name,
            LogEntry::Color { name, .. } => name,
            LogEntry::Bool { name, .. } => name,
            LogEntry::FieldState { name, .. } => name,
            LogEntry::Unkown { name, .. } => name,
        }
    }

    /// The type written in the record's line.
    pub fn get_data_type(&self) -> (t: String)
        ensures
            t@ == self@.data_type(),
    {
        match self {
            LogEntry::Number { .. } => "Number".to_string(),
            LogEntry::CycleNumber { .. } => "CycleNumber".to_string(),
            LogEntry::String { .. } => "String".to_string(),
            LogEntry::Color { .. } => "Color".to_string(),
            LogEntry::Bool { .. } => "Bool".to_string(),
            LogEntry::FieldState { .. } => "FieldState".to_string(),
            LogEntry::Unkown { data_type, .. } => data_type.clone(),
        }
    }

    /// A copy of the record.
    pub fn duplicate(&self) -> (r: LogEntry)
        ensures
            r@ == self@,
    {
        match self {
            LogEntry::Number { time, name, data } => LogEntry::Number {
                time: time.duplicate(),
                name: name.clone(),
                data: data.duplicate(),
            },
            LogEntry::CycleNumber { time, name, data } => LogEntry::CycleNumber {
                time: time.duplicate(),
                name: name.clone(),
                data: *data,
            },
            LogEntry::String { time, name, data } => LogEntry::String {
                time: time.duplicate(),
                name: name.clone(),
                data: data.clone(),
            },
            LogEntry::Color { time, name, data } => LogEntry::Color {
                time: time.duplicate(),
                name: name.clone(),
                data: *data,
            },
            LogEntry::Bool { time, name, data } => LogEntry::Bool {
                time: time.duplicate(),
                name: name.clone(),
                data: *data,
            },
            LogEntry::FieldState { time, name, data } => LogEntry::FieldState {
                time: time.duplicate(),
                name: name.clone(),
                data: data.duplicate(),
            },
            LogEntry::Unkown { time, data_type, name, data } => LogEntry::Unkown {
                time: time.duplicate(),
                data_type: data_type.clone(),
                name: name.clone(),
                data: data.clone(),
            },
        }
    }
}

/// A log line in the format `[time] name | type : data`.
pub open spec fn format_line(time: Seq<char>, name: Seq<char>, data_type: Seq<char>, data: Seq<char>) -> Seq<char> {
    "["@ + time + "] "@ + name + " | "@ + data_type + " : "@ + data
}

proof fn lemma_concat_lacks(a: Seq<char>, b: Seq<char>, c: char)
    requires
        !a.contains(c),
        !b.contains(c),
    ensures
        !(a + b).contains(c),
{
    if (a + b).contains(c) {
        let i = choose|i: int| 0 <= i < (a + b).len() && (a + b)[i] == c;
        if i < a.len() {
            assert(a[i] == c);
        } else {
            assert(b[i - a.len()] == c);
        }
    }
}

proof fn lemma_float_lacks(t: Seq<char>, c: char)
    requires
        is_float_literal(t),
        !is_float_char(c),
    ensures
        !t.contains(c),
{
    lemma_float_literal_chars(t);
    if t.contains(c) {
        let i = choose|i: int| 0 <= i < t.len() && t[i] == c;
        assert(is_float_char(t[i]));
    }
}

/// A line written in the log format is read back as the record of its parts,
/// where the time is a float literal, the name holds neither `:` nor `|`,
/// and the type holds no `:`.
pub proof fn law_line_read_back(time: Seq<char>, name: Seq<char>, data_type: Seq<char>, data: Seq<char>)
    requires
        is_float_literal(time),
        !name.contains(':'),
        !name.contains('|'),
        !data_type.contains(':'),
    ensures
        line_parts(format_line(time, name, data_type, data)) == Some((time, name, data_type, data)),
        parse_line_spec(format_line(time, name, data_type, data)) == Some(entry_of(time, name, data_type, data)),
{
    reveal_strlit("[");
    reveal_strlit("] ");
    reveal_strlit(" | ");
    reveal_strlit(" : ");
    let open_b = "["@;
    let close_b = "] "@;
    let bar = " | "@;
    let colon = " : "@;
    lemma_float_lacks(time, ':');
    lemma_float_lacks(time, '|');
    lemma_float_lacks(time, ']');
    let r = time + close_b + name;
    let q = open_b + r;
    let p = q + bar + data_type;
    let line = p + colon + data;
    assert(line =~= format_line(time, name, data_type, data));
    assert(q =~= open_b + time + close_b + name);
    // The first ` : ` follows the type.
    assert(!open_b.contains(':') && !close_b.contains(':') && !bar.contains(':'));
    lemma_concat_lacks(open_b, time, ':');
    lemma_concat_lacks(open_b + time, close_b, ':');
    lemma_concat_lacks(open_b + time + close_b, name, ':');
    lemma_concat_lacks(q, bar, ':');
    lemma_concat_lacks(q + bar, data_type, ':');
    assert(line.subrange(p.len() as int, p.len() + 3int) =~= colon);
    assert forall|i: int| 1 <= i < p.len() + 1 implies line[i] != colon[1] by {
        if i < p.len() {
            assert(line[i] == p[i]);
        }
    }
    lemma_first_match_by_char(line, colon, p.len() as int, 1);
    assert(line.subrange(0, p.len() as int) =~= p);
    assert(line.subrange(p.len() + 3int, line.len() as int) =~= data);
    // The first ` | ` follows the name.
    assert(!open_b.contains('|') && !close_b.contains('|'));
    lemma_concat_lacks(open_b, time, '|');
    lemma_concat_lacks(open_b + time, close_b, '|');
    lemma_concat_lacks(open_b + time + close_b, name, '|');
    assert(p.subrange(q.len() as int, q.len() + 3int) =~= bar);
    assert forall|i: int| 1 <= i < q.len() + 1 implies p[i] != bar[1] by {
        if i < q.len() {
            assert(p[i] == q[i]);
        }
    }
    lemma_first_match_by_char(p, bar, q.len() as int, 1);
    assert(p.subrange(0, q.len() as int) =~= q);
    assert(p.subrange(q.len() + 3int, p.len() as int) =~= data_type);
    // The first `[` opens the line.
    assert(q.subrange(0, 1) =~= seq!['[']);
    lemma_first_match_by_char(q, seq!['['], 0, 0);
    assert(remove_first(q, '[') =~= r);
    // The first `] ` follows the time.
    assert(r.subrange(time.len() as int, time.len() + 2int) =~= close_b);
    assert forall|i: int| 0 <= i < time.len() implies r[i] != close_b[0] by {
        assert(r[i] == time[i]);
    }
    lemma_first_match_by_char(r, close_b, time.len() as int, 0);
    assert(r.subrange(0, time.len() as int) =~= time);
    assert(r.subrange(time.len() + 2int, r.len() as int) =~= name);
}

proof fn lemma_type_words()
    ensures
        "String"@ != "Number"@,
        "String"@ != "Bool"@,
        "String"@ != "CycleNumber"@,
        "String"@ != "Color"@,
        "String"@ != "FieldState"@,
        "Number"@ != "Bool"@,
        "Number"@ != "CycleNumber"@,
        "Number"@ != "Color"@,
        "Number"@ != "FieldState"@,
        "Bool"@ != "CycleNumber"@,
        "Bool"@ != "Color"@,
        "Bool"@ != "FieldState"@,
        "CycleNumber"@ != "Color"@,
        "CycleNumber"@ != "FieldState"@,
        "Color"@ != "FieldState"@,
        !"String"@.contains(':'),
        !"Number"@.contains(':'),
        !"Bool"@.contains(':'),
        !"CycleNumber"@.contains(':'),
        !"Color"@.contains(':'),
        !"FieldState"@.contains(':'),
        "true"@ != "false"@,
{
    reveal_strlit("String");
    reveal_strlit("Number");
    reveal_strlit("Bool");
    reveal_strlit("CycleNumber");
    reveal_strlit("Color");
    reveal_strlit("FieldState");
    reveal_strlit("true");
    reveal_strlit("false");
    assert("String"@[0] != "Number"@[0]);
    assert("String"@[0] != "Bool"@[0]);
    assert("String"@.len() != "CycleNumber"@.len());
    assert("String"@[0] != "Color"@[0]);
    assert("String"@[0] != "FieldState"@[0]);
    assert("Number"@[0] != "Bool"@[0]);
    assert("Number"@[0] != "CycleNumber"@[0]);
    assert("Number"@[0] != "Color"@[0]);
    assert("Number"@[0] != "FieldState"@[0]);
    assert("Bool"@[0] != "CycleNumber"@[0]);
    assert("Bool"@[0] != "Color"@[0]);
    assert("Bool"@[0] != "FieldState"@[0]);
    assert("CycleNumber"@.len() != "Color"@.len());
    assert("CycleNumber"@[0] != "FieldState"@[0]);
    assert("Color"@[0] != "FieldState"@[0]);
    assert("true"@[0] != "false"@[0]);
}

/// What each type of line reads as. For a time `t` that is a float literal and
/// a name `n` without `:` or `|`, the line `[t] n | type : d` holds:
/// for `Bool`, `true` exactly when `d` is the text `true`; for `Number`, `d`
/// where it is a float literal and `0` otherwise; for `String`, `d` itself;
/// for `Color`, the `i32` that `d` spells, or `0`; for `CycleNumber`, the
/// `u64` that `d` spells; for `FieldState`, the objects that `d` describes;
/// and for any other type without `:`, the type and `d` as they stand.
pub proof fn law_line_values(t: Seq<char>, n: Seq<char>, ty: Seq<char>, d: Seq<char>)
    requires
        is_float_literal(t),
        !n.contains(':'),
        !n.contains('|'),
    ensures
        parse_line_spec(format_line(t, n, "Bool"@, d)) == Some(
            LogEntryView::Bool { time: t, name: n, data: d == "true"@ },
        ),
        parse_line_spec(format_line(t, n, "Number"@, d)) == Some(
            LogEntryView::Number { time: t, name: n, data: if is_float_literal(d) { d } else { seq!['0'] } },
        ),
        parse_line_spec(format_line(t, n, "String"@, d)) == Some(LogEntryView::String { time: t, name: n, data: d }),
        parse_line_spec(format_line(t, n, "Color"@, d)) == Some(
            LogEntryView::Color {
                time: t,
                name: n,
                data: match parse_i32_spec(d) {
                    Ok(c) => c as i32,
                    Err(_) => 0i32,
                },
            },
        ),
        parse_u64_spec(d) is Ok ==> parse_line_spec(format_line(t, n, "CycleNumber"@, d)) == Some(
            LogEntryView::CycleNumber { time: t, name: n, data: parse_u64_spec(d)->Ok_0 as u64 },
        ),
        parse_line_spec(format_line(t, n, "FieldState"@, d)) == Some(
            LogEntryView::FieldState { time: t, name: n, data: field_state_spec(d) },
        ),
        !ty.contains(':') && ty != "String"@ && ty != "Number"@ && ty != "Bool"@ && ty != "CycleNumber"@
            && ty != "Color"@ && ty != "FieldState"@ ==> parse_line_spec(format_line(t, n, ty, d)) == Some(
            LogEntryView::Unkown { time: t, data_type: ty, name: n, data: d },
        ),
{
    lemma_type_words();
    reveal_strlit("true");
    reveal_strlit("false");
    law_line_read_back(t, n, "Bool"@, d);
    law_line_read_back(t, n, "Number"@, d);
    law_line_read_back(t, n, "String"@, d);
    law_line_read_back(t, n, "Color"@, d);
    law_line_read_back(t, n, "CycleNumber"@, d);
    law_line_read_back(t, n, "FieldState"@, d);
    if !ty.contains(':') {
        law_line_read_back(t, n, ty, d);
    }
}

/// Only a `CycleNumber` line whose value is not a `u64` stops a load: such a
/// line does, and a line of any other type, or one that holds no record,
/// never does.
pub proof fn law_only_cycle_numbers_stop(line: Seq<char>)
    ensures
        line_is_fatal(line) <==> (line_parts(line) matches Some((t, n, ty, d)) && ty == "CycleNumber"@
            && parse_u64_spec(d) is Err),
        line_parts(line) is None ==> !line_is_fatal(line),
        line_parts(line) matches Some((t, n, ty, d)) && ty != "CycleNumber"@ ==> !line_is_fatal(line),
{
}

/// A written line of a type other than `CycleNumber` never stops a load, and
/// a `CycleNumber` line stops it exactly when its value is not a `u64`.
pub proof fn law_written_line_fatal(t: Seq<char>, n: Seq<char>, ty: Seq<char>, d: Seq<char>)
    requires
        is_float_literal(t),
        !n.contains(':'),
        !n.contains('|'),
        !ty.contains(':'),
    ensures
        line_is_fatal(format_line(t, n, ty, d)) == (ty == "CycleNumber"@ && parse_u64_spec(d) is Err),
{
    law_line_read_back(t, n, ty, d);
}

} // verus!
