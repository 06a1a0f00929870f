use crate::error::Error;
use crate::textutil::chars_to_string;
use vstd::prelude::*;

verus! {

/// ASCII uppercase of one character; anything but a lowercase ASCII letter
/// is kept as it is.
pub open spec fn upper_char(c: char) -> char {
    if 'a' <= c && c <= 'z' {
        ((c as u8) - 32) as char
    } else {
        c
    }
}

/// Executable `upper_char`.
pub fn upper_char_exec(c: char) -> (r: char)
    ensures
        r == upper_char(c),
{
    if 'a' <= c && c <= 'z' {
        ((c as u8) - 32) as char
    } else {
        c
    }
}

/// ASCII lowercase of one character; anything but an uppercase ASCII letter
/// is kept as it is.
pub open spec fn lower_char(c: char) -> char {
    if 'A' <= c && c <= 'Z' {
        ((c as u8) + 32) as char
    } else {
        c
    }
}

/// Executable `lower_char`.
pub fn lower_char_exec(c: char) -> (r: char)
    ensures
        r == lower_char(c),
{
    if 'A' <= c && c <= 'Z' {
        ((c as u8) + 32) as char
    } else {
        c
    }
}

/// What parsing a country-code string yields: `None` unless the input has
/// exactly two characters; the alias "UK" becomes "GB"; anything else is
/// uppercased character by character.
pub open spec fn normalize_cc(s: Seq<char>) -> Option<Seq<char>> {
    if s.len() != 2 {
        Option::None
    } else if s == seq!['U', 'K'] {
        Option::Some(seq!['G', 'B'])
    } else {
        Option::Some(seq![upper_char(s[0]), upper_char(s[1])])
    }
}

/// A normalized two-letter country code.
#[derive(Debug)]
pub struct CountryCode {
    code: String,
}

impl View for CountryCode {
    type V = Seq<char>;

    closed spec fn view(&self) -> Seq<char> {
        self.code@
    }
}

impl CountryCode {
    /// Parse and normalize a country-code string. Exactly the two-character
    /// inputs are accepted, after the one alias "UK" -> "GB".
    pub fn from_str(s: &str) -> (r: Result<CountryCode, Error>)
        ensures
            r is Ok <==> normalize_cc(s@) is Some,
            r is Ok ==> r->Ok_0@ == normalize_cc(s@)->0,
            r is Err ==> r->Err_0 == Error::InvalidCountryCode,
    {
        let n = s.unicode_len();
        if n != 2 {
            return Result::Err(Error::InvalidCountryCode);
        }
        let c0 = s.get_char(0);
        let c1 = s.get_char(1);
        proof {
            assert(s@ =~= seq![c0, c1]);
        }
        let mut v: Vec<char> = Vec::new();
        if c0 == 'U' && c1 == 'K' {
            v.push('G');
            v.push('B');
            proof {
                assert(v@ =~= seq!['G', 'B']);
            }
        } else {
            v.push(upper_char_exec(c0));
            v.push(upper_char_exec(c1));
            proof {
                assert(v@ =~= seq![upper_char(c0), upper_char(c1)]);
            }
        }
        Result::Ok(CountryCode { code: chars_to_string(&v) })
    }

    /// The normalized code.
    pub fn as_str(&self) -> (r: &str)
        ensures
            r@ == self@,
    {
        self.code.as_str()
    }

    /// A copy of this code.
    pub fn duplicate(&self) -> (r: CountryCode)
        ensures
            r@ == self@,
    {
        CountryCode { code: self.code.clone() }
    }

    /// Equality of codes, by their text.
    pub fn same(&self, other: &CountryCode) -> (r: bool)
        ensures
            r == (self@ == other@),
    {
        crate::textutil::str_eq(self.code.as_str(), other.code.as_str())
    }
}

} // verus!
