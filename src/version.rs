//! Object and protocol versions of the form `D.D`.
use vstd::prelude::*;
use crate::err::ObjectParserError;
use crate::text::{is_digit, push_char};

verus! {

/// The character of a decimal digit.
pub open spec fn digit_char(d: nat) -> char {
    if d == 0 {
        '0'
    } else if d == 1 {
        '1'
    } else if d == 2 {
        '2'
    } else if d == 3 {
        '3'
    } else if d == 4 {
        '4'
    } else if d == 5 {
        '5'
    } else if d == 6 {
        '6'
    } else if d == 7 {
        '7'
    } else if d == 8 {
        '8'
    } else if d == 9 {
        '9'
    } else {
        '?'
    }
}

pub fn digit_to_char(d: u8) -> (c: char)
    requires
        d < 10,
    ensures
        c == digit_char(d as nat),
        is_digit(c),
        (c as u32 - '0' as u32) == d,
{
    if d == 0 {
        '0'
    } else if d == 1 {
        '1'
    } else if d == 2 {
        '2'
    } else if d == 3 {
        '3'
    } else if d == 4 {
        '4'
    } else if d == 5 {
        '5'
    } else if d == 6 {
        '6'
    } else if d == 7 {
        '7'
    } else if d == 8 {
        '8'
    } else {
        '9'
    }
}

/// Whether `s` is a version: one digit, a dot, one digit.
pub open spec fn is_version_text(s: Seq<char>) -> bool {
    s.len() == 3 && is_digit(s[0]) && s[1] == '.' && is_digit(s[2])
}

/// A version `major.minor`, each a single decimal digit. Two versions are
/// equal exactly when their texts are.
#[derive(Debug, Clone, Copy, PartialEq, Eq, Hash, Structural)]
pub struct Version {
    major: u8,
    minor: u8,
}

impl Version {
    #[verifier::type_invariant]
    closed spec fn wf(&self) -> bool {
        self.major < 10 && self.minor < 10
    }

    /// The text of this version, as it was parsed.
    pub closed spec fn text(&self) -> Seq<char> {
        seq![digit_char(self.major as nat), '.', digit_char(self.minor as nat)]
    }

    /// The version `1.0`.
    pub closed spec fn default_spec() -> Version {
        Version { major: 1, minor: 0 }
    }

    /// A number that identifies the version among all versions.
    pub closed spec fn key(&self) -> u16 {
        ((self.major as u16) * 256 + (self.minor as u16)) as u16
    }

    pub fn key_of(&self) -> (r: u16)
        ensures
            r == self.key(),
    {
        (self.major as u16) * 256 + (self.minor as u16)
    }

    /// Parses `D.D`; anything else is an error.
    pub fn parse(s: &str) -> (r: Result<Version, ObjectParserError>)
        ensures
            match r {
                Ok(v) => is_version_text(s@) && v.text() == s@,
                Err(e) => !is_version_text(s@) && e.message_view()
                    == "Version is not in format DIGIT.DIGIT"@,
            },
    {
        let n = s.unicode_len();
        if n == 3 {
            let a = s.get_char(0);
            let dot = s.get_char(1);
            let b = s.get_char(2);
            if '0' <= a && a <= '9' && dot == '.' && '0' <= b && b <= '9' {
                let major = (a as u32 - '0' as u32) as u8;
                let minor = (b as u32 - '0' as u32) as u8;
                let v = Version { major, minor };
                proof {
                    lemma_digit_char_of_value(a);
                    lemma_digit_char_of_value(b);
                }
                assert(v.text() =~= s@);
                return Ok(v);
            }
        }
        Err(ObjectParserError::new("Version is not in format DIGIT.DIGIT"))
    }

    /// The text `D.D` of this version.
    pub fn to_string(&self) -> (r: String)
        ensures
            r@ == self.text(),
    {
        proof {
            use_type_invariant(self);
        }
        let mut r = String::new();
        push_char(&mut r, digit_to_char(self.major));
        push_char(&mut r, '.');
        push_char(&mut r, digit_to_char(self.minor));
        assert(r@ =~= self.text());
        r
    }
}

impl Default for Version {
    /// The version `1.0`, used where none is asked for.
    fn default() -> (r: Version)
        ensures
            r == Version::default_spec(),
            r.text() == seq!['1', '.', '0'],
    {
        Version { major: 1, minor: 0 }
    }
}

proof fn lemma_digit_char_of_value(c: char)
    requires
        is_digit(c),
    ensures
        digit_char((c as u32 - '0' as u32) as nat) == c,
{
    assert('0' as u32 == 48);
    let d = (c as u32 - '0' as u32) as nat;
    assert(d < 10);
    if d == 0 { assert(c == '0'); }
    else if d == 1 { assert(c == '1'); }
    else if d == 2 { assert(c == '2'); }
    else if d == 3 { assert(c == '3'); }
    else if d == 4 { assert(c == '4'); }
    else if d == 5 { assert(c == '5'); }
    else if d == 6 { assert(c == '6'); }
    else if d == 7 { assert(c == '7'); }
    else if d == 8 { assert(c == '8'); }
    else { assert(c == '9'); }
}

/// Formatting a version and parsing the text back gives the same version:
/// a version is determined by its text, and its text is always well formed.
pub proof fn lemma_version_round_trip(a: Version, b: Version)
    requires
        is_version_text(a.text()),
        b.text() == a.text(),
    ensures
        b == a,
{
    assert(a.text()[0] == b.text()[0]);
    assert(a.text()[2] == b.text()[2]);
    digit_char_injective(a.major as nat, b.major as nat);
    digit_char_injective(a.minor as nat, b.minor as nat);
}

/// Two versions with the same key are the same version.
pub proof fn lemma_key_injective(a: Version, b: Version)
    requires
        a.key() == b.key(),
    ensures
        a == b,
{
}

proof fn digit_char_injective(x: nat, y: nat)
    requires
        is_digit(digit_char(x)),
        digit_char(x) == digit_char(y),
    ensures
        x == y,
{
}

} // verus!
