//! A floating-point value carried as the decimal text it was read from.
use vstd::prelude::*;
use crate::number::{is_float_literal, is_float_literal_chars};
use crate::text::{chars_of, string_of};

verus! {

broadcast use vstd::string::group_string_axioms;

/// Text that `str::parse::<f64>` accepts, standing for the value it denotes.
pub struct FloatLiteral {
    text: String,
}

impl View for FloatLiteral {
    type V = Seq<char>;

    closed spec fn view(&self) -> Seq<char> {
        self.text@
    }
}

impl FloatLiteral {
    #[verifier::type_invariant]
    spec fn well_formed(self) -> bool {
        is_float_literal(self.text@)
    }

    /// The literal spelled by `v`, where `v` is one.
    pub fn from_chars(v: &Vec<char>) -> (r: Option<FloatLiteral>)
        ensures
            r is Some <==> is_float_literal(v@),
            r matches Some(f) ==> f@ == v@,
    {
        if is_float_literal_chars(v) {
            let text = string_of(v, 0, v.len());
            assert(v@.subrange(0, v@.len() as int) =~= v@);
            Some(FloatLiteral { text })
        } else {
            None
        }
    }

    /// The literal spelled by `s`, where `s` is one.
    pub fn from_text(s: &str) -> (r: Option<FloatLiteral>)
        ensures
            r is Some <==> is_float_literal(s@),
            r matches Some(f) ==> f@ == s@,
    {
        let v = chars_of(s);
        FloatLiteral::from_chars(&v)
    }

    /// The literal `0`, which `f64::default()` stands for.
    pub fn zero() -> (r: FloatLiteral)
        ensures
            r@ == seq!['0'],
    {
        let v = vec!['0'];
        assert(v@ =~= seq!['0']);
        assert(is_float_literal(v@)) by {
            assert(crate::number::is_mantissa(v@)) by {
                assert(crate::number::is_digit(v@[0]));
            }
        }
        FloatLiteral { text: string_of(&v, 0, 1) }
    }

    /// The text of the literal.
    pub fn as_str(&self) -> (s: &str)
        ensures
            s@ == self@,
            is_float_literal(s@),
    {
        proof {
            use_type_invariant(self);
        }
        self.text.as_str()
    }

    /// A copy of the literal.
    pub fn duplicate(&self) -> (r: FloatLiteral)
        ensures
            r@ == self@,
    {
        proof {
            use_type_invariant(self);
        }
        FloatLiteral { text: self.text.clone() }
    }
}

} // verus!
