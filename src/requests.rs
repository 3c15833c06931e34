//! Registration requests: the Uri-Query options and the CoRE link-format
//! payload of a `POST /rd`, decoded into a typed request.
use vstd::prelude::*;
use vstd::utf8::{decode_utf8, valid_utf8};
use crate::attributes::{
    attribute_of, bind_mode_of, lwm2m_version_of, AttributeView, Lwm2mAttribute,
    Lwm2mBindMode, Lwm2mVersion, RequestError, ResponseCode, U64_MAX,
};
use crate::text::{chars_of, is_unsigned, parse_number, str_eq, unsigned_value};

verus! {

/// One object link of the payload and its attributes.
#[derive(Debug)]
pub struct Lwm2mObject {
    pub object: String,
    pub attributes: Vec<Lwm2mAttribute>,
}

pub struct ObjectView {
    pub object: Seq<char>,
    pub attributes: Seq<AttributeView>,
}

impl View for Lwm2mObject {
    type V = ObjectView;

    open spec fn view(&self) -> ObjectView {
        ObjectView {
            object: self.object@,
            attributes: self.attributes@.map_values(|a: Lwm2mAttribute| a@),
        }
    }
}

/// A decoded registration.
#[derive(Debug)]
pub struct Lwm2mRegistrationRequest {
    pub endpoint: String,
    /// Seconds.
    pub lifetime: u64,
    pub version: Lwm2mVersion,
    pub binding_mode: Lwm2mBindMode,
    pub objects: Vec<Lwm2mObject>,
}

pub struct RegistrationView {
    pub endpoint: Seq<char>,
    pub lifetime: u64,
    pub version: Lwm2mVersion,
    pub binding_mode: Lwm2mBindMode,
    pub objects: Seq<ObjectView>,
}

impl View for Lwm2mRegistrationRequest {
    type V = RegistrationView;

    open spec fn view(&self) -> RegistrationView {
        RegistrationView {
            endpoint: self.endpoint@,
            lifetime: self.lifetime,
            version: self.version,
            binding_mode: self.binding_mode,
            objects: self.objects@.map_values(|o: Lwm2mObject| o@),
        }
    }
}

/// A refusal: a response code and a message.
pub type Refusal = (ResponseCode, Seq<char>);

pub open spec fn pair_view(p: (String, String)) -> (Seq<char>, Seq<char>) {
    (p.0@, p.1@)
}

pub open spec fn pairs_view(s: Seq<(String, String)>) -> Seq<(Seq<char>, Seq<char>)> {
    s.map_values(|p: (String, String)| pair_view(p))
}

pub open spec fn link_view(l: (String, Vec<(String, String)>)) -> (
    Seq<char>,
    Seq<(Seq<char>, Seq<char>)>,
) {
    (l.0@, pairs_view(l.1@))
}

/// The links of a CoRE link-format payload as coap-lite reads them, in
/// order, each with its attributes as (name, unquoted value) in order; and
/// whether reading stopped at a malformed link.
pub uninterp spec fn link_format_of(payload: Seq<char>) -> (
    Seq<(Seq<char>, Seq<(Seq<char>, Seq<char>)>)>,
    bool,
);

/// Relies on coap-lite's `LinkFormatParser` and `LinkAttributeParser`: the
/// links up to the first malformed one, with their attributes unquoted by
/// `Unquote`; an empty payload holds no link and no error.
#[verifier::external_body]
fn split_links(payload: &str) -> (r: (Vec<(String, Vec<(String, String)>)>, bool))
    ensures
        r.0@.map_values(|l: (String, Vec<(String, String)>)| link_view(l)) == link_format_of(
            payload@,
        ).0,
        r.1 == link_format_of(payload@).1,
        payload@.len() == 0 ==> r.0@.len() == 0 && !r.1,
{
    let mut links = Vec::new();
    for item in coap_lite::link_format::LinkFormatParser::new(payload) {
        match item {
            Ok((link, attrs)) => links.push(
                (link.to_string(), attrs.map(|(k, v)| (k.to_string(), v.to_string())).collect()),
            ),
            Err(_) => return (links, true),
        }
    }
    (links, false)
}

/// The decoded (name, value) pairs of a URL query as serde_querystring
/// reads them in its UrlEncoded mode into a map of strings, in key order;
/// `None` when it cannot.
pub uninterp spec fn query_pairs_of(query: Seq<char>) -> Option<Seq<(Seq<char>, Seq<char>)>>;

/// Relies on `serde_querystring::from_str` in `ParseMode::UrlEncoded`,
/// read into a `BTreeMap<String, String>`: percent-decoded pairs, one per
/// key.
#[verifier::external_body]
fn query_pairs(query: &str) -> (r: Option<Vec<(String, String)>>)
    ensures
        match r {
            Some(v) => query_pairs_of(query@) == Some(pairs_view(v@)),
            None => query_pairs_of(query@) is None,
        },
{
    serde_querystring::from_str::<std::collections::BTreeMap<String, String>>(
        query,
        serde_querystring::ParseMode::UrlEncoded,
    ).ok().map(|m| m.into_iter().collect())
}

/// Relies on `std::str::from_utf8`: it succeeds exactly on valid UTF-8,
/// and then holds the decoded characters.
#[verifier::external_body]
fn utf8_text(bytes: &[u8]) -> (r: Option<String>)
    ensures
        match r {
            Some(s) => valid_utf8(bytes@) && s@ == decode_utf8(bytes@),
            None => !valid_utf8(bytes@),
        },
{
    std::str::from_utf8(bytes).ok().map(|s| s.to_string())
}

/// The attributes of one link, up to the first refused one.
pub open spec fn attribute_steps(attrs: Seq<(Seq<char>, Seq<char>)>, n: nat) -> Result<
    Seq<AttributeView>,
    Refusal,
>
    decreases n,
{
    if n == 0 {
        Ok(Seq::empty())
    } else {
        match attribute_steps(attrs, (n - 1) as nat) {
            Ok(s) => if n <= attrs.len() {
                match attribute_of(attrs[n - 1].0, attrs[n - 1].1) {
                    Ok(a) => Ok(s.push(a)),
                    Err(e) => Err(e),
                }
            } else {
                Ok(s)
            },
            Err(e) => Err(e),
        }
    }
}

proof fn lemma_attribute_steps_stay_failed(attrs: Seq<(Seq<char>, Seq<char>)>, i: nat, n: nat)
    requires
        i <= n,
        attribute_steps(attrs, i) is Err,
    ensures
        attribute_steps(attrs, n) == attribute_steps(attrs, i),
    decreases n - i,
{
    if i < n {
        lemma_attribute_steps_stay_failed(attrs, i, (n - 1) as nat);
    }
}

/// The object that one link and its attributes stand for.
pub open spec fn object_of_link(link: (Seq<char>, Seq<(Seq<char>, Seq<char>)>)) -> Result<
    ObjectView,
    Refusal,
> {
    match attribute_steps(link.1, link.1.len()) {
        Ok(attrs) => Ok(ObjectView { object: link.0, attributes: attrs }),
        Err(e) => Err(e),
    }
}

/// The objects of the first `n` links, up to the first refused one.
pub open spec fn link_steps(links: Seq<(Seq<char>, Seq<(Seq<char>, Seq<char>)>)>, n: nat) -> Result<
    Seq<ObjectView>,
    Refusal,
>
    decreases n,
{
    if n == 0 {
        Ok(Seq::empty())
    } else {
        match link_steps(links, (n - 1) as nat) {
            Ok(s) => if n <= links.len() {
                match object_of_link(links[n - 1]) {
                    Ok(o) => Ok(s.push(o)),
                    Err(e) => Err(e),
                }
            } else {
                Ok(s)
            },
            Err(e) => Err(e),
        }
    }
}

proof fn lemma_link_steps_stay_failed(
    links: Seq<(Seq<char>, Seq<(Seq<char>, Seq<char>)>)>,
    i: nat,
    n: nat,
)
    requires
        i <= n,
        link_steps(links, i) is Err,
    ensures
        link_steps(links, n) == link_steps(links, i),
    decreases n - i,
{
    if i < n {
        lemma_link_steps_stay_failed(links, i, (n - 1) as nat);
    }
}

/// The objects of a payload read into links: each link in order, then a
/// refusal if reading stopped at a malformed link.
pub open spec fn objects_of_links(
    links: Seq<(Seq<char>, Seq<(Seq<char>, Seq<char>)>)>,
    failed: bool,
) -> Result<Seq<ObjectView>, Refusal> {
    match link_steps(links, links.len()) {
        Ok(objs) => if failed {
            Err((ResponseCode::UnprocessableEntity, "ParseError"@))
        } else {
            Ok(objs)
        },
        Err(e) => Err(e),
    }
}

/// Reads the attributes of one link into an object.
pub fn parse_attributes(object: &str, attributes: &Vec<(String, String)>) -> (r: Result<
    Lwm2mObject,
    RequestError,
>)
    ensures
        match (r, object_of_link((object@, pairs_view(attributes@)))) {
            (Ok(o), Ok(v)) => o@ == v,
            (Err(e), Err((c, m))) => e.code == c && e.message@ == m,
            _ => false,
        },
{
    let ghost pv = pairs_view(attributes@);
    let mut attrs: Vec<Lwm2mAttribute> = Vec::new();
    let n = attributes.len();
    let mut i: usize = 0;
    assert(attrs@.map_values(|a: Lwm2mAttribute| a@) =~= Seq::<AttributeView>::empty());
    while i < n
        invariant
            n == attributes@.len() == pv.len(),
            pv == pairs_view(attributes@),
            i <= n,
            attribute_steps(pv, i as nat) == Ok::<Seq<AttributeView>, Refusal>(
                attrs@.map_values(|a: Lwm2mAttribute| a@),
            ),
        decreases n - i,
    {
        let (name, value) = (&attributes[i].0, &attributes[i].1);
        assert(pv[i as int] == (name@, value@));
        match Lwm2mAttribute::new(name.as_str(), value.as_str()) {
            Ok(a) => {
                let ghost prev = attrs@.map_values(|a: Lwm2mAttribute| a@);
                let ghost av = a@;
                attrs.push(a);
                assert(attrs@.map_values(|a: Lwm2mAttribute| a@) =~= prev.push(av));
            },
            Err(e) => {
                proof {
                    lemma_attribute_steps_stay_failed(pv, (i + 1) as nat, n as nat);
                }
                return Err(e);
            },
        }
        i = i + 1;
    }
    Ok(Lwm2mObject { object: object.to_owned(), attributes: attrs })
}

/// Reads the objects of links that the payload was read into; `failed`
/// tells that reading stopped at a malformed link.
pub fn objects_from_links(links: &Vec<(String, Vec<(String, String)>)>, failed: bool) -> (r:
    Result<Vec<Lwm2mObject>, RequestError>)
    ensures
        match (
            r,
            objects_of_links(
                links@.map_values(|l: (String, Vec<(String, String)>)| link_view(l)),
                failed,
            ),
        ) {
            (Ok(os), Ok(v)) => os@.map_values(|o: Lwm2mObject| o@) == v,
            (Err(e), Err((c, m))) => e.code == c && e.message@ == m,
            _ => false,
        },
{
    let ghost lv = links@.map_values(|l: (String, Vec<(String, String)>)| link_view(l));
    let mut objects: Vec<Lwm2mObject> = Vec::new();
    let n = links.len();
    let mut i: usize = 0;
    assert(objects@.map_values(|o: Lwm2mObject| o@) =~= Seq::<ObjectView>::empty());
    while i < n
        invariant
            n == links@.len() == lv.len(),
            lv == links@.map_values(|l: (String, Vec<(String, String)>)| link_view(l)),
            i <= n,
            link_steps(lv, i as nat) == Ok::<Seq<ObjectView>, Refusal>(
                objects@.map_values(|o: Lwm2mObject| o@),
            ),
        decreases n - i,
    {
        let link = &links[i];
        assert(lv[i as int] == (link.0@, pairs_view(link.1@)));
        match parse_attributes(link.0.as_str(), &link.1) {
            Ok(o) => {
                let ghost prev = objects@.map_values(|o: Lwm2mObject| o@);
                let ghost ov = o@;
                objects.push(o);
                assert(objects@.map_values(|o: Lwm2mObject| o@) =~= prev.push(ov));
            },
            Err(e) => {
                proof {
                    lemma_link_steps_stay_failed(lv, (i + 1) as nat, n as nat);
                }
                return Err(e);
            },
        }
        i = i + 1;
    }
    if failed {
        return Err(RequestError::new(ResponseCode::UnprocessableEntity, "ParseError"));
    }
    Ok(objects)
}

/// Reads a CoRE link-format payload into objects.
pub fn parse_link_format(payload: &str) -> (r: Result<Vec<Lwm2mObject>, RequestError>)
    ensures
        match (r, objects_of_links(link_format_of(payload@).0, link_format_of(payload@).1)) {
            (Ok(os), Ok(v)) => os@.map_values(|o: Lwm2mObject| o@) == v,
            (Err(e), Err((c, m))) => e.code == c && e.message@ == m,
            _ => false,
        },
{
    let (links, failed) = split_links(payload);
    objects_from_links(&links, failed)
}

/// The value of the first pair named `key`.
pub open spec fn query_value(pairs: Seq<(Seq<char>, Seq<char>)>, key: Seq<char>) -> Option<
    Seq<char>,
>
    decreases pairs.len(),
{
    if pairs.len() == 0 {
        None
    } else if pairs[0].0 == key {
        Some(pairs[0].1)
    } else {
        query_value(pairs.drop_first(), key)
    }
}

/// The registration that query pairs describe, still without objects:
/// `ep`, `lt` (seconds, a non-negative integer), `lwm2m` and `b` must all
/// be present and readable.
pub open spec fn registration_of_query(pairs: Seq<(Seq<char>, Seq<char>)>) -> Option<
    RegistrationView,
> {
    match (
        query_value(pairs, "ep"@),
        query_value(pairs, "lt"@),
        query_value(pairs, "lwm2m"@),
        query_value(pairs, "b"@),
    ) {
        (Some(ep), Some(lt), Some(v), Some(b)) => if is_unsigned(lt, U64_MAX as nat)
            && lwm2m_version_of(v) is Some && bind_mode_of(b) is Some {
            Some(
                RegistrationView {
                    endpoint: ep,
                    lifetime: unsigned_value(lt) as u64,
                    version: lwm2m_version_of(v).unwrap(),
                    binding_mode: bind_mode_of(b).unwrap(),
                    objects: Seq::empty(),
                },
            )
        } else {
            None
        },
        _ => None,
    }
}

fn find_pair<'a>(pairs: &'a Vec<(String, String)>, key: &str) -> (r: Option<&'a String>)
    ensures
        match r {
            Some(v) => query_value(pairs_view(pairs@), key@) == Some(v@),
            None => query_value(pairs_view(pairs@), key@) is None,
        },
{
    let ghost pv = pairs_view(pairs@);
    let n = pairs.len();
    let mut i: usize = 0;
    assert(pv.skip(0) =~= pv);
    while i < n
        invariant
            n == pairs@.len() == pv.len(),
            pv == pairs_view(pairs@),
            i <= n,
            query_value(pv, key@) == query_value(pv.skip(i as int), key@),
        decreases n - i,
    {
        assert(pv.skip(i as int)[0] == pair_view(pairs@[i as int]));
        if str_eq(pairs[i].0.as_str(), key) {
            return Some(&pairs[i].1);
        }
        assert(pv.skip(i as int).drop_first() =~= pv.skip(i + 1));
        i = i + 1;
    }
    assert(pv.skip(i as int) =~= Seq::<(Seq<char>, Seq<char>)>::empty());
    None
}

/// Characters that Rust's `char::is_whitespace` accepts.
pub open spec fn is_white_space(c: char) -> bool {
    ('\t' <= c && c <= '\r') || c == ' ' || c == '\u{85}' || c == '\u{a0}' || c == '\u{1680}' || (
    '\u{2000}' <= c && c <= '\u{200a}') || c == '\u{2028}' || c == '\u{2029}' || c == '\u{202f}'
        || c == '\u{205f}' || c == '\u{3000}'
}

pub open spec fn is_blank(s: Seq<char>) -> bool {
    forall|i: int| 0 <= i < s.len() ==> is_white_space(#[trigger] s[i])
}

fn blank(s: &str) -> (r: bool)
    ensures
        r == is_blank(s@),
{
    let v = chars_of(s);
    let n = v.len();
    let mut i: usize = 0;
    while i < n
        invariant
            n == v@.len(),
            v@ == s@,
            i <= n,
            forall|j: int| 0 <= j < i ==> is_white_space(#[trigger] v@[j]),
        decreases n - i,
    {
        let c = v[i];
        if !(('\t' <= c && c <= '\r') || c == ' ' || c == '\u{85}' || c == '\u{a0}' || c
            == '\u{1680}' || ('\u{2000}' <= c && c <= '\u{200a}') || c == '\u{2028}' || c
            == '\u{2029}' || c == '\u{202f}' || c == '\u{205f}' || c == '\u{3000}') {
            return false;
        }
        i = i + 1;
    }
    true
}

/// The content-format number of `application/link-format`.
pub const LINK_FORMAT: usize = 40;

/// How a registration request is answered: the decoded request, or the
/// refusal of the first step that fails. The steps, in order: the query
/// must be present and readable, the payload must be UTF-8, the payload
/// must be link-format (or, without a content format, not blank), the
/// query must name the endpoint, lifetime, version and binding, and the
/// payload's links and attributes must be readable.
pub open spec fn registration_of(
    query: Option<Result<String, ()>>,
    content_format: Option<usize>,
    payload: Seq<u8>,
) -> Result<RegistrationView, Refusal> {
    match query {
        None => Err((ResponseCode::BadOption, "Missing all URL query parameters"@)),
        Some(Err(_)) => Err((ResponseCode::InternalServerError, "Failed to read options"@)),
        Some(Ok(q)) => if !valid_utf8(payload) {
            Err((ResponseCode::UnprocessableEntity, "Unreadable utf8 content"@))
        } else {
            let text = decode_utf8(payload);
            if content_format is None && is_blank(text) {
                Err(
                    (
                        ResponseCode::UnprocessableEntity,
                        "Registration requires objects in payload"@,
                    ),
                )
            } else if content_format is Some && content_format.unwrap() != LINK_FORMAT {
                Err((ResponseCode::UnsupportedContentFormat, "Content Type unsupported"@))
            } else {
                match query_pairs_of(q@) {
                    None => Err((ResponseCode::UnprocessableEntity, "Incorrect URL query format"@)),
                    Some(pairs) => match registration_of_query(pairs) {
                        None => Err(
                            (ResponseCode::UnprocessableEntity, "Incorrect URL query format"@),
                        ),
                        Some(base) => match objects_of_links(
                            link_format_of(text).0,
                            link_format_of(text).1,
                        ) {
                            Ok(objs) => Ok(RegistrationView { objects: objs, ..base }),
                            Err(e) => Err(e),
                        },
                    },
                }
            }
        },
    }
}

impl Lwm2mRegistrationRequest {
    /// Reads the endpoint, lifetime, version and binding from decoded query
    /// pairs; the request has no objects yet.
    pub fn from_query(pairs: &Vec<(String, String)>) -> (r: Result<Self, RequestError>)
        ensures
            match r {
                Ok(req) => registration_of_query(pairs_view(pairs@)) == Some(req@),
                Err(e) => registration_of_query(pairs_view(pairs@)) is None && e.code
                    == ResponseCode::UnprocessableEntity && e.message@
                    == "Incorrect URL query format"@,
            },
    {
        let ep = find_pair(pairs, "ep");
        let lt = find_pair(pairs, "lt");
        let v = find_pair(pairs, "lwm2m");
        let b = find_pair(pairs, "b");
        if let (Some(ep), Some(lt), Some(v), Some(b)) = (ep, lt, v, b) {
            let lifetime = parse_number(lt.as_str(), U64_MAX);
            let version = Lwm2mVersion::parse(v.as_str());
            let binding = Lwm2mBindMode::parse(b.as_str());
            if let (Some(lifetime), Some(version), Some(binding_mode)) = (lifetime, version, binding) {
                let req = Lwm2mRegistrationRequest {
                    endpoint: ep.clone(),
                    lifetime,
                    version,
                    binding_mode,
                    objects: Vec::new(),
                };
                assert(req@.objects =~= Seq::<ObjectView>::empty());
                return Ok(req);
            }
        }
        Err(RequestError::new(ResponseCode::UnprocessableEntity, "Incorrect URL query format"))
    }

    /// Decodes a registration from the first Uri-Query option (`None` when
    /// there is none, `Err` when it could not be read), the Content-Format
    /// option and the payload.
    pub fn decode(
        query: Option<Result<String, ()>>,
        content_format: Option<usize>,
        payload: &[u8],
    ) -> (r: Result<Self, RequestError>)
        ensures
            match (r, registration_of(query, content_format, payload@)) {
                (Ok(req), Ok(v)) => req@ == v,
                (Err(e), Err((c, m))) => e.code == c && e.message@ == m,
                _ => false,
            },
    {
        let q = match query {
            None => {
                return Err(
                    RequestError::new(ResponseCode::BadOption, "Missing all URL query parameters"),
                );
            },
            Some(Err(_)) => {
                return Err(
                    RequestError::new(ResponseCode::InternalServerError, "Failed to read options"),
                );
            },
            Some(Ok(q)) => q,
        };
        let text = match utf8_text(payload) {
            Some(t) => t,
            None => {
                return Err(
                    RequestError::new(ResponseCode::UnprocessableEntity, "Unreadable utf8 content"),
                );
            },
        };
        match content_format {
            None => {
                if blank(text.as_str()) {
                    return Err(
                        RequestError::new(
                            ResponseCode::UnprocessableEntity,
                            "Registration requires objects in payload",
                        ),
                    );
                }
            },
            Some(cf) => {
                if cf != LINK_FORMAT {
                    return Err(
                        RequestError::new(
                            ResponseCode::UnsupportedContentFormat,
                            "Content Type unsupported",
                        ),
                    );
                }
            },
        }
        let pairs = match query_pairs(q.as_str()) {
            Some(p) => p,
            None => {
                return Err(
                    RequestError::new(
                        ResponseCode::UnprocessableEntity,
                        "Incorrect URL query format",
                    ),
                );
            },
        };
        let mut req = match Lwm2mRegistrationRequest::from_query(&pairs) {
            Ok(req) => req,
            Err(e) => {
                return Err(e);
            },
        };
        match parse_link_format(text.as_str()) {
            Ok(objects) => {
                req.objects = objects;
                Ok(req)
            },
            Err(e) => Err(e),
        }
    }
}

} // verus!
