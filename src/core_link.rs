//! LwM2M paths: `</A/B/C/D>` as in CoRE link payloads, or bare `A/B/C/D`.
use vstd::prelude::*;
use crate::err::ObjectParserError;
use crate::text::{
    all_digits, chars_of, digits_only, split_bounds, decimal_value, lemma_split_nonempty, parse_unsigned, split, string_of,
};
use crate::version::{digit_char, digit_to_char};
use crate::text::push_char;

verus! {

/// The slash-separated part of a path: what stands between `</` and `>`
/// in the bracketed form, or the bare form without its leading `/` if it
/// has one.
pub open spec fn core_link_path(s: Seq<char>) -> Option<Seq<char>> {
    if s.len() > 0 && s[0] == '<' {
        if s.len() >= 3 && s[1] == '/' && s.last() == '>' {
            Some(s.subrange(2, s.len() - 1))
        } else {
            None
        }
    } else if s.len() > 0 && s[0] == '/' {
        Some(s.drop_first())
    } else {
        Some(s)
    }
}

/// The components of the path, when the text has the shape of one: one to
/// four non-empty runs of digits.
pub open spec fn core_link_components(s: Seq<char>) -> Option<Seq<Seq<char>>> {
    match core_link_path(s) {
        Some(p) => {
            let parts = split(p, '/');
            if 1 <= parts.len() <= 4 && forall|i: int|
                0 <= i < parts.len() ==> #[trigger] parts[i].len() > 0 && all_digits(parts[i]) {
                Some(parts)
            } else {
                None
            }
        },
        None => None,
    }
}

/// Whether every component of a path-shaped text fits in 16 bits.
pub open spec fn components_fit(parts: Seq<Seq<char>>) -> bool {
    forall|i: int| 0 <= i < parts.len() ==> decimal_value(#[trigger] parts[i]) <= 0xffff
}

/// Whether `s` is a well-formed path.
pub open spec fn is_core_link(s: Seq<char>) -> bool {
    match core_link_components(s) {
        Some(parts) => components_fit(parts),
        None => false,
    }
}

/// The message for a component that does not fit in 16 bits.
pub open spec fn component_message(i: nat, part: Seq<char>) -> Seq<char> {
    "CoRE link index "@ + seq![digit_char(i)] + ", value "@ + part + " is not a u16"@
}

/// The error message for a text that is not a well-formed path: the first
/// component that is too large is named, a text of the wrong shape is not.
pub open spec fn core_link_error(s: Seq<char>) -> Seq<char> {
    match core_link_components(s) {
        Some(parts) => {
            let i = choose|i: int|
                0 <= i < parts.len() && decimal_value(parts[i]) > 0xffff && forall|j: int|
                    0 <= j < i ==> decimal_value(#[trigger] parts[j]) <= 0xffff;
            component_message(i as nat, parts[i])
        },
        None => "LwM2M CoRE link is not valid"@,
    }
}

/// The path's ids, in order: object, object instance, resource, resource
/// instance.
pub open spec fn core_link_ids(s: Seq<char>) -> Seq<u16> {
    let parts = core_link_components(s).unwrap();
    Seq::new(parts.len(), |i: int| decimal_value(parts[i]) as u16)
}

/// Whether a path names an object or one of its resources.
#[derive(Debug, Clone, Copy, PartialEq, Eq, Structural)]
pub enum ModelType {
    Object,
    Resource,
}

/// A parsed LwM2M path, together with the text it was parsed from.
#[derive(Debug, Clone)]
pub struct CoreLink {
    pub link: String,
    pub object_id: u16,
    pub object_instance: Option<u16>,
    pub resource_id: Option<u16>,
    pub resource_instance: Option<u16>,
}

impl CoreLink {
    /// The ids that this path holds, in order; the ones that are set come
    /// before the ones that are not.
    pub open spec fn ids(&self) -> Seq<u16> {
        match (self.object_instance, self.resource_id, self.resource_instance) {
            (None, None, None) => seq![self.object_id],
            (Some(a), None, None) => seq![self.object_id, a],
            (Some(a), Some(b), None) => seq![self.object_id, a, b],
            (Some(a), Some(b), Some(c)) => seq![self.object_id, a, b, c],
            _ => Seq::empty(),
        }
    }

    /// Parses either form of a path. The result keeps the text it was
    /// parsed from.
    pub fn parse(s: &str) -> (r: Result<CoreLink, ObjectParserError>)
        ensures
            match r {
                Ok(c) => is_core_link(s@) && c.link@ == s@ && c.ids() == core_link_ids(s@),
                Err(e) => !is_core_link(s@) && e.message_view() == core_link_error(s@),
            },
    {
        let v = chars_of(s);
        let n = v.len();
        let mut start: usize = 0;
        let mut end: usize = n;
        if n > 0 && v[0] == '<' {
            if n >= 3 && v[1] == '/' && v[n - 1] == '>' {
                start = 2;
                end = n - 1;
            } else {
                return Err(ObjectParserError::new("LwM2M CoRE link is not valid"));
            }
        } else if n > 0 && v[0] == '/' {
            start = 1;
        }
        let ghost p = v@.subrange(start as int, end as int);
        assert(core_link_path(s@) == Some(p)) by {
            if !(n > 0 && v@[0] == '<') {
                if n > 0 && v@[0] == '/' {
                    assert(p =~= s@.drop_first());
                } else {
                    assert(p =~= s@);
                }
            }
        }
        // Split the path on '/', remembering where each component lies.
        let bounds = split_bounds(&v, start, end, '/');
        let ghost parts = split(p, '/');
        assert(v@.subrange(start as int, end as int) == p);
        assert(parts.len() == bounds@.len());
        assert(forall|k: int|
            0 <= k < bounds@.len() ==> parts[k] == v@.subrange(
                (#[trigger] bounds@[k]).0 as int,
                bounds@[k].1 as int,
            ));
        // Shape: one to four non-empty runs of digits.
        let count = bounds.len();
        if count > 4 {
            return Err(ObjectParserError::new("LwM2M CoRE link is not valid"));
        }
        let mut k: usize = 0;
        while k < count
            invariant
                count == bounds@.len() == parts.len() <= 4,
                k <= count,
                core_link_path(s@) == Some(p),
                parts == split(p, '/'),
                forall|j: int|
                    0 <= j < bounds@.len() ==> parts[j] == v@.subrange(
                        (#[trigger] bounds@[j]).0 as int,
                        bounds@[j].1 as int,
                    ) && bounds@[j].0 <= bounds@[j].1 <= v@.len(),
                forall|j: int| 0 <= j < k ==> #[trigger] parts[j].len() > 0 && all_digits(parts[j]),
            decreases count - k,
        {
            let (a, b) = bounds[k];
            if a == b || !digits_only(&v, a, b) {
                assert(!(parts[k as int].len() > 0 && all_digits(parts[k as int])));
                return Err(ObjectParserError::new("LwM2M CoRE link is not valid"));
            }
            k = k + 1;
        }
        proof {
            lemma_split_nonempty(p, '/');
        }
        assert(core_link_components(s@) == Some(parts));
        // Values: each component must fit in 16 bits.
        let mut ids: Vec<u16> = Vec::new();
        let mut k: usize = 0;
        while k < count
            invariant
                count == bounds@.len() == parts.len() <= 4,
                k <= count,
                core_link_components(s@) == Some(parts),
                forall|j: int|
                    0 <= j < bounds@.len() ==> parts[j] == v@.subrange(
                        (#[trigger] bounds@[j]).0 as int,
                        bounds@[j].1 as int,
                    ) && bounds@[j].0 <= bounds@[j].1 <= v@.len(),
                forall|j: int| 0 <= j < parts.len() ==> #[trigger] parts[j].len() > 0 && all_digits(parts[j]),
                ids@.len() == k,
                forall|j: int|
                    0 <= j < k ==> decimal_value(#[trigger] parts[j]) <= 0xffff && ids@[j]
                        == decimal_value(parts[j]),
            decreases count - k,
        {
            let (a, b) = bounds[k];
            match parse_unsigned(&v, a, b, 0xffff, false) {
                Some(x) => {
                    ids.push(x as u16);
                },
                None => {
                    let mut m = String::new();
                    m.append("CoRE link index ");
                    push_char(&mut m, digit_to_char(k as u8));
                    m.append(", value ");
                    let part = string_of(&v, a, b);
                    m.append(part.as_str());
                    m.append(" is not a u16");
                    proof {
                        let i = choose|i: int|
                            0 <= i < parts.len() && decimal_value(parts[i]) > 0xffff && forall|
                                j: int,
                            |
                                0 <= j < i ==> decimal_value(#[trigger] parts[j]) <= 0xffff;
                        assert(0 <= k < parts.len() && decimal_value(parts[k as int]) > 0xffff
                            && forall|j: int|
                            0 <= j < k ==> decimal_value(#[trigger] parts[j]) <= 0xffff);
                        if i < k {
                            assert(decimal_value(parts[i]) <= 0xffff);
                        } else if i > k {
                            assert(decimal_value(parts[k as int]) <= 0xffff);
                        }
                        assert(m@ =~= component_message(k as nat, parts[k as int]));
                    }
                    return Err(ObjectParserError::from_string(m));
                },
            }
            k = k + 1;
        }
        let link = s.to_owned();
        let object_id = ids[0];
        let object_instance = if count > 1 { Some(ids[1]) } else { None };
        let resource_id = if count > 2 { Some(ids[2]) } else { None };
        let resource_instance = if count > 3 { Some(ids[3]) } else { None };
        let c = CoreLink { link, object_id, object_instance, resource_id, resource_instance };
        assert(c.ids() =~= core_link_ids(s@));
        Ok(c)
    }

    /// Whether the path names an object or a resource: a resource exactly
    /// when it has a third component.
    pub fn kind(&self) -> (r: ModelType)
        ensures
            r == (if self.resource_id.is_some() { ModelType::Resource } else { ModelType::Object }),
    {
        match self.resource_id {
            Some(_) => ModelType::Resource,
            None => ModelType::Object,
        }
    }

    /// The text the path was parsed from.
    pub fn to_string(&self) -> (r: String)
        ensures
            r@ == self.link@,
    {
        self.link.clone()
    }
}

/// Parsing, formatting and parsing again gives the same path: when `first`
/// is what parsing `s` gives and `second` is what parsing the text of
/// `first` gives, the text is `s` again, bracketed or bare as it was, and
/// every id of `second` equals the one of `first`.
pub proof fn lemma_core_link_round_trip(s: Seq<char>, first: CoreLink, second: CoreLink)
    requires
        is_core_link(s),
        first.link@ == s,
        first.ids() == core_link_ids(s),
        is_core_link(first.link@),
        second.link@ == first.link@,
        second.ids() == core_link_ids(first.link@),
    ensures
        second.link@ == s,
        second.object_id == first.object_id,
        second.object_instance == first.object_instance,
        second.resource_id == first.resource_id,
        second.resource_instance == first.resource_instance,
{
    let parts = core_link_components(s).unwrap();
    assert(core_link_ids(s).len() == parts.len());
    assert(first.ids().len() >= 1);
    assert(second.ids() == first.ids());
    assert(second.ids()[0] == first.ids()[0]);
    if first.ids().len() >= 2 {
        assert(second.ids()[1] == first.ids()[1]);
    }
    if first.ids().len() >= 3 {
        assert(second.ids()[2] == first.ids()[2]);
    }
    if first.ids().len() >= 4 {
        assert(second.ids()[3] == first.ids()[3]);
    }
}

} // verus!
