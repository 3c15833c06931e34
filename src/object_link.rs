//! Object links `OID:IID`, a resource value type.
use vstd::prelude::*;
use crate::err::ObjectParserError;
use crate::text::{
    chars_of, is_unsigned, parse_unsigned, push_char, split, split_bounds, string_of, unsigned_value,
};
use crate::version::{digit_char, digit_to_char};

verus! {

/// Whether `s` is an object link: two parts around one `:`, each a number
/// that fits in 16 bits.
pub open spec fn is_object_link(s: Seq<char>) -> bool {
    let parts = split(s, ':');
    parts.len() == 2 && is_unsigned(parts[0], 0xffff) && is_unsigned(parts[1], 0xffff)
}

pub open spec fn object_link_part_message(i: nat, part: Seq<char>) -> Seq<char> {
    "Object Link index "@ + seq![digit_char(i)] + ", value "@ + part + " is not a u16"@
}

/// The error message for a text that is not an object link.
pub open spec fn object_link_error(s: Seq<char>) -> Seq<char> {
    let parts = split(s, ':');
    if parts.len() != 2 {
        "Object Link should match u16:u16 pattern"@
    } else if !is_unsigned(parts[0], 0xffff) {
        object_link_part_message(0, parts[0])
    } else {
        object_link_part_message(1, parts[1])
    }
}

/// A link to an object instance, with the text it was parsed from.
#[derive(Debug, Clone)]
pub struct ObjectLink {
    pub link: String,
    pub object_id: u16,
    pub object_instance: u16,
}

impl ObjectLink {
    /// Parses `OID:IID`.
    pub fn parse(link: String) -> (r: Result<ObjectLink, ObjectParserError>)
        ensures
            match r {
                Ok(o) => {
                    let parts = split(link@, ':');
                    &&& is_object_link(link@)
                    &&& o.link@ == link@
                    &&& o.object_id == unsigned_value(parts[0])
                    &&& o.object_instance == unsigned_value(parts[1])
                },
                Err(e) => !is_object_link(link@) && e.message_view() == object_link_error(link@),
            },
    {
        let v = chars_of(link.as_str());
        let bounds = split_bounds(&v, 0, v.len(), ':');
        let ghost parts = split(link@, ':');
        assert(v@.subrange(0, v@.len() as int) =~= link@);
        if bounds.len() != 2 {
            return Err(ObjectParserError::new("Object Link should match u16:u16 pattern"));
        }
        let mut ids: Vec<u16> = Vec::new();
        let mut k: usize = 0;
        while k < 2
            invariant
                bounds@.len() == 2 == parts.len(),
                parts == split(link@, ':'),
                forall|j: int|
                    0 <= j < 2 ==> parts[j] == v@.subrange(
                        (#[trigger] bounds@[j]).0 as int,
                        bounds@[j].1 as int,
                    ) && bounds@[j].0 <= bounds@[j].1 <= v@.len(),
                k <= 2,
                ids@.len() == k,
                forall|j: int|
                    0 <= j < k ==> is_unsigned(#[trigger] parts[j], 0xffff) && ids@[j]
                        == unsigned_value(parts[j]),
            decreases 2 - k,
        {
            let (a, b) = bounds[k];
            match parse_unsigned(&v, a, b, 0xffff, true) {
                Some(x) => {
                    ids.push(x as u16);
                },
                None => {
                    let mut m = String::new();
                    m.append("Object Link index ");
                    push_char(&mut m, digit_to_char(k as u8));
                    m.append(", value ");
                    let part = string_of(&v, a, b);
                    m.append(part.as_str());
                    m.append(" is not a u16");
                    assert(m@ =~= object_link_part_message(k as nat, parts[k as int]));
                    return Err(ObjectParserError::from_string(m));
                },
            }
            k = k + 1;
        }
        Ok(ObjectLink { link, object_id: ids[0], object_instance: ids[1] })
    }

    /// The text the link was parsed from.
    pub fn to_string(&self) -> (r: String)
        ensures
            r@ == self.link@,
    {
        self.link.clone()
    }
}

} // verus!
