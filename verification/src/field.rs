//! The objects on the playing field, as a `FieldState` log record carries
//! them: `name,TYPE,color,x,y,rotation` records separated by `|`.
use vstd::prelude::*;
use crate::float_text::FloatLiteral;
use crate::number::{
    float_error_message, float_error_text, int_error_message, int_error_text, is_float_char,
    is_float_literal, is_sign, lemma_float_literal_chars, lemma_parse_int_chars, parse_i32,
    parse_i32_spec,
};
use crate::text::{
    chars_eq, chars_of, join_on, lemma_split_join, lemma_split_on_append, split_chars, split_on,
    string_of,
};

verus! {

broadcast use vstd::string::group_string_axioms;

/// The kind of an object on the field.
#[derive(Clone, Copy, Debug, PartialEq, Eq, Structural)]
pub enum ObjectType {
    Robot,
    AprilTag,
    Marker,
}

/// The object type that `s` names: `ROBOT`, `APRIL_TAG` or `MARKER`.
pub open spec fn object_type_spec(s: Seq<char>) -> Option<ObjectType> {
    if s == "ROBOT"@ {
        Some(ObjectType::Robot)
    } else if s == "APRIL_TAG"@ {
        Some(ObjectType::AprilTag)
    } else if s == "MARKER"@ {
        Some(ObjectType::Marker)
    } else {
        None
    }
}

pub open spec fn bad_object_type_text() -> Seq<char> {
    "failed to find a valid object type"@
}

pub open spec fn no_next_token_text() -> Seq<char> {
    "no next token"@
}

impl ObjectType {
    /// The object type that `value` names, or the reason it names none.
    pub fn try_from(value: &str) -> (r: Result<ObjectType, String>)
        ensures
            match object_type_spec(value@) {
                Some(t) => r == Ok::<ObjectType, String>(t),
                None => r matches Err(m) && m@ == bad_object_type_text(),
            },
    {
        let v = chars_of(value);
        ObjectType::from_chars(&v)
    }

    fn from_chars(v: &Vec<char>) -> (r: Result<ObjectType, String>)
        ensures
            match object_type_spec(v@) {
                Some(t) => r == Ok::<ObjectType, String>(t),
                None => r matches Err(m) && m@ == bad_object_type_text(),
            },
    {
        if chars_eq(v, &chars_of("ROBOT")) {
            Ok(ObjectType::Robot)
        } else if chars_eq(v, &chars_of("APRIL_TAG")) {
            Ok(ObjectType::AprilTag)
        } else if chars_eq(v, &chars_of("MARKER")) {
            Ok(ObjectType::Marker)
        } else {
            Err("failed to find a valid object type".to_string())
        }
    }
}

/// What a field object is: its name and type, its colour, and its position
/// and rotation as the decimal text they were written in.
pub struct FieldObjectView {
    pub name: Seq<char>,
    pub object_type: ObjectType,
    pub color: i32,
    pub xpos: Seq<char>,
    pub ypos: Seq<char>,
    pub rot: Seq<char>,
}

/// One object on the field.
pub struct FieldObject {
    pub name: String,
    pub object_type: ObjectType,
    pub color: i32,
    pub xpos: FloatLiteral,
    pub ypos: FloatLiteral,
    pub rot: FloatLiteral,
}

impl View for FieldObject {
    type V = FieldObjectView;

    open spec fn view(&self) -> FieldObjectView {
        FieldObjectView {
            name: self.name@,
            object_type: self.object_type,
            color: self.color,
            xpos: self.xpos@,
            ypos: self.ypos@,
            rot: self.rot@,
        }
    }
}

/// Reading one record `name,TYPE,color,x,y,rotation`: the comma-separated
/// tokens are taken in turn, the first missing or unreadable one deciding the
/// error; tokens after the sixth are ignored.
pub open spec fn field_object_spec(s: Seq<char>) -> Result<FieldObjectView, Seq<char>> {
    let t = split_on(s, ',');
    if t.len() < 2 {
        Err(no_next_token_text())
    } else {
        match object_type_spec(t[1]) {
            None => Err(bad_object_type_text()),
            Some(ty) => {
                if t.len() < 3 {
                    Err(no_next_token_text())
                } else {
                    match parse_i32_spec(t[2]) {
                        Err(e) => Err(int_error_text(e)),
                        Ok(color) => {
                            if t.len() < 4 {
                                Err(no_next_token_text())
                            } else if !is_float_literal(t[3]) {
                                Err(float_error_text(t[3]))
                            } else if t.len() < 5 {
                                Err(no_next_token_text())
                            } else if !is_float_literal(t[4]) {
                                Err(float_error_text(t[4]))
                            } else if t.len() < 6 {
                                Err(no_next_token_text())
                            } else if !is_float_literal(t[5]) {
                                Err(float_error_text(t[5]))
                            } else {
                                Ok(
                                    FieldObjectView {
                                        name: t[0],
                                        object_type: ty,
                                        color: color as i32,
                                        xpos: t[3],
                                        ypos: t[4],
                                        rot: t[5],
                                    },
                                )
                            }
                        },
                    }
                }
            },
        }
    }
}

fn no_next_token() -> (m: String)
    ensures
        m@ == no_next_token_text(),
{
    "no next token".to_string()
}

impl FieldObject {
    /// Reads one field object record.
    pub fn try_from(value: &str) -> (r: Result<FieldObject, String>)
        ensures
            match field_object_spec(value@) {
                Ok(o) => r matches Ok(x) && x@ == o,
                Err(m) => r matches Err(x) && x@ == m,
            },
    {
        let v = chars_of(value);
        FieldObject::from_chars(&v)
    }

    fn from_chars(v: &Vec<char>) -> (r: Result<FieldObject, String>)
        ensures
            match field_object_spec(v@) {
                Ok(o) => r matches Ok(x) && x@ == o,
                Err(m) => r matches Err(x) && x@ == m,
            },
    {
        let t = split_chars(v, ',');
        let ghost ts = split_on(v@, ',');
        proof { crate::text::lemma_split_on_nonempty(v@, ','); }
        if t.len() < 2 {
            return Err(no_next_token());
        }
        let name = string_of(&t[0], 0, t[0].len());
        assert(t@[0]@.subrange(0, t@[0]@.len() as int) =~= t@[0]@);
        let object_type = match ObjectType::from_chars(&t[1]) {
            Ok(ty) => ty,
            Err(m) => {
                return Err(m);
            },
        };
        if t.len() < 3 {
            return Err(no_next_token());
        }
        let color = match parse_i32(&t[2]) {
            Ok(c) => c,
            Err(e) => {
                return Err(int_error_message(e));
            },
        };
        if t.len() < 4 {
            return Err(no_next_token());
        }
        let xpos = match FloatLiteral::from_chars(&t[3]) {
            Some(f) => f,
            None => {
                return Err(float_error_message(&t[3]));
            },
        };
        if t.len() < 5 {
            return Err(no_next_token());
        }
        let ypos = match FloatLiteral::from_chars(&t[4]) {
            Some(f) => f,
            None => {
                return Err(float_error_message(&t[4]));
            },
        };
        if t.len() < 6 {
            return Err(no_next_token());
        }
        let rot = match FloatLiteral::from_chars(&t[5]) {
            Some(f) => f,
            None => {
                return Err(float_error_message(&t[5]));
            },
        };
        Ok(FieldObject { name, object_type, color, xpos, ypos, rot })
    }

    /// A copy of the object.
    pub fn duplicate(&self) -> (r: FieldObject)
        ensures
            r@ == self@,
    {
        FieldObject {
            name: self.name.clone(),
            object_type: self.object_type,
            color: self.color,
            xpos: self.xpos.duplicate(),
            ypos: self.ypos.duplicate(),
            rot: self.rot.duplicate(),
        }
    }
}

/// The objects that the `|`-separated records in `pieces` describe, in
/// order, the records that cannot be read left out.
pub open spec fn readable_objects(pieces: Seq<Seq<char>>) -> Seq<FieldObjectView>
    decreases pieces.len(),
{
    if pieces.len() == 0 {
        Seq::empty()
    } else {
        let prev = readable_objects(pieces.drop_last());
        match field_object_spec(pieces.last()) {
            Ok(o) => prev.push(o),
            Err(_) => prev,
        }
    }
}

/// The field state that text `s` describes.
pub open spec fn field_state_spec(s: Seq<char>) -> Seq<FieldObjectView> {
    readable_objects(split_on(s, '|'))
}

/// Every object on the field at one moment.
pub struct FieldState {
    pub field_objects: Vec<FieldObject>,
}

impl View for FieldState {
    type V = Seq<FieldObjectView>;

    open spec fn view(&self) -> Seq<FieldObjectView> {
        self.field_objects@.map_values(|o: FieldObject| o@)
    }
}

impl FieldState {
    /// Reads a field state: the `|`-separated records that can be read, in
    /// order.
    pub fn from(value: &str) -> (r: FieldState)
        ensures
            r@ == field_state_spec(value@),
    {
        let v = chars_of(value);
        FieldState::from_chars(&v)
    }

    pub fn from_chars(v: &Vec<char>) -> (r: FieldState)
        ensures
            r@ == field_state_spec(v@),
    {
        let pieces = split_chars(v, '|');
        let ghost ps = split_on(v@, '|');
        let mut objects: Vec<FieldObject> = Vec::new();
        let mut i: usize = 0;
        while i < pieces.len()
            invariant
                i <= pieces@.len() == ps.len(),
                forall|k: int| 0 <= k < pieces@.len() ==> #[trigger] pieces@[k]@ == ps[k],
                objects@.map_values(|o: FieldObject| o@) == readable_objects(ps.take(i as int)),
            decreases pieces@.len() - i,
        {
            assert(ps.take(i + 1).drop_last() =~= ps.take(i as int));
            assert(ps.take(i + 1).last() == pieces@[i as int]@);
            match FieldObject::from_chars(&pieces[i]) {
                Ok(o) => {
                    let ghost before = objects@;
                    objects.push(o);
                    assert(objects@.map_values(|o: FieldObject| o@) =~= before.map_values(
                        |o: FieldObject| o@,
                    ).push(o@));
                },
                Err(_) => {},
            }
            i = i + 1;
        }
        assert(ps.take(ps.len() as int) =~= ps);
        FieldState { field_objects: objects }
    }

    /// A copy of the field state.
    pub fn duplicate(&self) -> (r: FieldState)
        ensures
            r@ == self@,
    {
        let mut objects: Vec<FieldObject> = Vec::new();
        let mut i: usize = 0;
        while i < self.field_objects.len()
            invariant
                i <= self.field_objects@.len(),
                objects@.map_values(|o: FieldObject| o@) == self.field_objects@.take(i as int).map_values(
                    |o: FieldObject| o@,
                ),
            decreases self.field_objects@.len() - i,
        {
            let ghost before = objects@;
            let o = self.field_objects[i].duplicate();
            objects.push(o);
            assert(self.field_objects@.take(i + 1) =~= self.field_objects@.take(i as int).push(self.field_objects@[i as int]));
            assert(objects@ =~= before.push(o));
            assert(objects@.map_values(|o: FieldObject| o@) =~= before.map_values(|o: FieldObject| o@).push(o@));
            assert(objects@.map_values(|o: FieldObject| o@) =~= self.field_objects@.take(i + 1).map_values(
                |o: FieldObject| o@,
            ));
            i = i + 1;
        }
        assert(self.field_objects@.take(self.field_objects@.len() as int) =~= self.field_objects@);
        FieldState { field_objects: objects }
    }
}

/// The word that names an object type.
pub open spec fn object_type_text(t: ObjectType) -> Seq<char> {
    match t {
        ObjectType::Robot => "ROBOT"@,
        ObjectType::AprilTag => "APRIL_TAG"@,
        ObjectType::Marker => "MARKER"@,
    }
}

/// The word of each object type reads back as that type.
pub proof fn law_object_type_read_back(t: ObjectType)
    ensures
        object_type_spec(object_type_text(t)) == Some(t),
        !object_type_text(t).contains(','),
{
    reveal_strlit("ROBOT");
    reveal_strlit("APRIL_TAG");
    reveal_strlit("MARKER");
    assert("ROBOT"@.len() != "APRIL_TAG"@.len());
    assert("ROBOT"@.len() != "MARKER"@.len());
    assert("APRIL_TAG"@.len() != "MARKER"@.len());
    let w = object_type_text(t);
    if w.contains(',') {
        let i = choose|i: int| 0 <= i < w.len() && w[i] == ',';
        assert(w[i] != ',');
    }
}

proof fn lemma_lacks_comma_float(t: Seq<char>)
    requires
        is_float_literal(t),
    ensures
        !t.contains(','),
{
    lemma_float_literal_chars(t);
    if t.contains(',') {
        let i = choose|i: int| 0 <= i < t.len() && t[i] == ',';
        assert(is_float_char(t[i]));
    }
}

/// A record written as `name,TYPE,color,x,y,rotation`, with a name without
/// commas, the word of a type, an integer colour and float literals for the
/// position and rotation, is read back as that object.
pub proof fn law_field_object_read_back(
    name: Seq<char>,
    t: ObjectType,
    color: Seq<char>,
    x: Seq<char>,
    y: Seq<char>,
    r: Seq<char>,
)
    requires
        !name.contains(','),
        parse_i32_spec(color) is Ok,
        is_float_literal(x),
        is_float_literal(y),
        is_float_literal(r),
    ensures
        match parse_i32_spec(color) {
            Ok(c) => field_object_spec(join_on(seq![name, object_type_text(t), color, x, y, r], ','))
                == Ok::<FieldObjectView, Seq<char>>(
                FieldObjectView { name, object_type: t, color: c as i32, xpos: x, ypos: y, rot: r },
            ),
            Err(_) => true,
        },
{
    let ts = seq![name, object_type_text(t), color, x, y, r];
    law_object_type_read_back(t);
    lemma_lacks_comma_float(x);
    lemma_lacks_comma_float(y);
    lemma_lacks_comma_float(r);
    lemma_parse_int_chars(color, true, i32::MIN as int, i32::MAX as int);
    assert(!color.contains(',')) by {
        if color.contains(',') {
            let i = choose|i: int| 0 <= i < color.len() && color[i] == ',';
            assert(crate::number::is_digit(color[i]) || (i == 0 && is_sign(color[i])));
        }
    }
    assert forall|i: int| 0 <= i < ts.len() implies !(#[trigger] ts[i]).contains(',') by {}
    lemma_split_join(ts, ',');
}

proof fn lemma_readable_concat(x: Seq<Seq<char>>, y: Seq<Seq<char>>)
    ensures
        readable_objects(x + y) == readable_objects(x) + readable_objects(y),
    decreases y.len(),
{
    if y.len() == 0 {
        assert(x + y =~= x);
        assert(readable_objects(x) + readable_objects(y) =~= readable_objects(x));
    } else {
        lemma_readable_concat(x, y.drop_last());
        assert((x + y).drop_last() =~= x + y.drop_last());
        assert((x + y).last() == y.last());
        match field_object_spec(y.last()) {
            Ok(o) => {
                assert((readable_objects(x) + readable_objects(y.drop_last())).push(o) =~= readable_objects(x)
                    + readable_objects(y.drop_last()).push(o));
            },
            Err(_) => {},
        }
    }
}

/// Field states written one after the other, separated by `|`, read as the
/// objects of the first followed by those of the second.
pub proof fn law_field_state_concat(a: Seq<char>, b: Seq<char>)
    ensures
        field_state_spec(a + seq!['|'] + b) == field_state_spec(a) + field_state_spec(b),
{
    lemma_split_on_append(a, b, '|');
    lemma_readable_concat(split_on(a, '|'), split_on(b, '|'));
}

/// A record that can be read.
pub open spec fn is_readable(record: Seq<char>) -> bool {
    field_object_spec(record) is Ok
}

/// The object a readable record describes.
pub open spec fn object_of(record: Seq<char>) -> FieldObjectView {
    field_object_spec(record)->Ok_0
}

proof fn lemma_readable_filter(pieces: Seq<Seq<char>>)
    ensures
        readable_objects(pieces) == pieces.filter(|p: Seq<char>| is_readable(p)).map_values(
            |p: Seq<char>| object_of(p),
        ),
    decreases pieces.len(),
{
    let f = |p: Seq<char>| is_readable(p);
    let m = |p: Seq<char>| object_of(p);
    reveal(Seq::filter);
    if pieces.len() == 0 {
        assert(pieces.filter(f) =~= Seq::<Seq<char>>::empty());
        assert(pieces.filter(f).map_values(m) =~= Seq::<FieldObjectView>::empty());
    } else {
        lemma_readable_filter(pieces.drop_last());
        let sub = pieces.drop_last().filter(f);
        if f(pieces.last()) {
            assert(pieces.filter(f) == sub.push(pieces.last()));
            assert(sub.push(pieces.last()).map_values(m) =~= sub.map_values(m).push(m(pieces.last())));
        } else {
            assert(pieces.filter(f) == sub);
        }
    }
}

/// A field state holds the object of every `|`-separated record that can be
/// read, whatever it holds, and nothing else, in order.
pub proof fn law_field_state_keeps_readable(s: Seq<char>)
    ensures
        field_state_spec(s) == split_on(s, '|').filter(|p: Seq<char>| is_readable(p)).map_values(
            |p: Seq<char>| object_of(p),
        ),
{
    lemma_readable_filter(split_on(s, '|'));
}

/// A field state of one readable record holds just that record's object.
pub proof fn law_single_record(s: Seq<char>, o: FieldObjectView)
    requires
        !s.contains('|'),
        field_object_spec(s) == Ok::<FieldObjectView, Seq<char>>(o),
    ensures
        field_state_spec(s) == seq![o],
{
    crate::text::lemma_split_on_single(s, '|');
    let ps = split_on(s, '|');
    assert(ps.drop_last() =~= Seq::<Seq<char>>::empty());
    assert(readable_objects(ps.drop_last()) =~= Seq::<FieldObjectView>::empty());
}

} // verus!
