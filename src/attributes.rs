//! Link attributes of a registration payload, and the LwM2M enumerations
//! they and the query string use.
use vstd::prelude::*;
use crate::text::{
    all_digits, chars_of, is_digit, is_unsigned, parse_number, str_eq, unsigned_value,
};

verus! {

/// The CoAP response codes a malformed request is answered with.
#[derive(Debug, Clone, Copy, PartialEq, Eq, Structural)]
pub enum ResponseCode {
    /// 4.02
    BadOption,
    /// 4.06
    NotAcceptable,
    /// 4.15
    UnsupportedContentFormat,
    /// 4.22
    UnprocessableEntity,
    /// 5.00
    InternalServerError,
}

/// Why a request was refused, and the response code that says so.
#[derive(Debug)]
pub struct RequestError {
    pub code: ResponseCode,
    pub message: String,
}

impl RequestError {
    pub fn new(code: ResponseCode, message: &str) -> (r: Self)
        ensures
            r.code == code,
            r.message@ == message@,
    {
        RequestError { code, message: message.to_owned() }
    }

    pub fn with_value(code: ResponseCode, prefix: &str, value: &str, suffix: &str) -> (r: Self)
        ensures
            r.code == code,
            r.message@ == prefix@ + value@ + suffix@,
    {
        let mut m = prefix.to_owned();
        m.append(value);
        m.append(suffix);
        RequestError { code, message: m }
    }
}

/// The LwM2M protocol versions a client may register with.
#[derive(Debug, Clone, Copy, PartialEq, Eq, Structural)]
pub enum Lwm2mVersion {
    V10,
    V11,
    V12,
}

/// The version a text names: `1.0` or `v1.0`, and so on.
pub open spec fn lwm2m_version_of(s: Seq<char>) -> Option<Lwm2mVersion> {
    if s == "1.0"@ || s == "v1.0"@ {
        Some(Lwm2mVersion::V10)
    } else if s == "1.1"@ || s == "v1.1"@ {
        Some(Lwm2mVersion::V11)
    } else if s == "1.2"@ || s == "v1.2"@ {
        Some(Lwm2mVersion::V12)
    } else {
        None
    }
}

impl Lwm2mVersion {
    /// Reads a version by any of its names.
    pub fn parse(s: &str) -> (r: Option<Lwm2mVersion>)
        ensures
            r == lwm2m_version_of(s@),
    {
        if str_eq(s, "1.0") || str_eq(s, "v1.0") {
            Some(Lwm2mVersion::V10)
        } else if str_eq(s, "1.1") || str_eq(s, "v1.1") {
            Some(Lwm2mVersion::V11)
        } else if str_eq(s, "1.2") || str_eq(s, "v1.2") {
            Some(Lwm2mVersion::V12)
        } else {
            None
        }
    }
}

/// The transport a client asks to be reached over.
#[derive(Debug, Clone, Copy, PartialEq, Eq, Structural)]
pub enum Lwm2mBindMode {
    Udp,
    Tcp,
}

/// The binding a text names: `U` or `u`; `T` or `t`.
pub open spec fn bind_mode_of(s: Seq<char>) -> Option<Lwm2mBindMode> {
    if s == "U"@ || s == "u"@ {
        Some(Lwm2mBindMode::Udp)
    } else if s == "T"@ || s == "t"@ {
        Some(Lwm2mBindMode::Tcp)
    } else {
        None
    }
}

impl Lwm2mBindMode {
    /// Reads a binding by any of its names.
    pub fn parse(s: &str) -> (r: Option<Lwm2mBindMode>)
        ensures
            r == bind_mode_of(s@),
    {
        if str_eq(s, "U") || str_eq(s, "u") {
            Some(Lwm2mBindMode::Udp)
        } else if str_eq(s, "T") || str_eq(s, "t") {
            Some(Lwm2mBindMode::Tcp)
        } else {
            None
        }
    }
}

/// The content-format numbers that coap-lite knows.
pub open spec fn is_content_format_code(n: usize) -> bool {
    n == 0 || (40 <= n <= 42) || n == 47 || n == 50 || n == 60 || (110 <= n <= 115) || n == 310
        || n == 311
}

/// Relies on coap-lite's `TryFrom<usize>` for `ContentFormat`: it accepts
/// exactly the registered numbers it lists.
#[verifier::external_body]
fn is_content_format(n: usize) -> (r: bool)
    ensures
        r == is_content_format_code(n),
{
    coap_lite::ContentFormat::try_from(n).is_ok()
}

/// A number in an attribute: an optional sign, then digits.
pub open spec fn without_sign(s: Seq<char>) -> Seq<char> {
    if s.len() > 0 && (s[0] == '+' || s[0] == '-') {
        s.drop_first()
    } else {
        s
    }
}

/// Digits with at most one `.` among them, and at least one digit.
pub open spec fn is_mantissa(m: Seq<char>) -> bool {
    (m.len() > 0 && all_digits(m)) || (m.len() > 1 && exists|i: int|
        0 <= i < m.len() && m[i] == '.' && all_digits(m.take(i)) && all_digits(
            #[trigger] m.skip(i + 1),
        ))
}

pub open spec fn is_exponent(x: Seq<char>) -> bool {
    let d = without_sign(x);
    d.len() > 0 && all_digits(d)
}

pub open spec fn is_e(c: char) -> bool {
    c == 'e' || c == 'E'
}

/// Whether `t` equals the lower-case text `lit` when ASCII case is
/// ignored.
pub open spec fn eq_ignoring_case(t: Seq<char>, lit: Seq<char>) -> bool {
    t.len() == lit.len() && forall|i: int|
        0 <= i < t.len() ==> #[trigger] t[i] == lit[i] || ('a' <= lit[i] && lit[i] <= 'z'
            && t[i] as u32 + 32 == lit[i] as u32)
}

/// The texts that Rust reads as a 64-bit float: an optional sign, then
/// `inf`, `infinity` or `nan` in any case, or a decimal number with an
/// optional exponent.
pub open spec fn is_float_text(s: Seq<char>) -> bool {
    let t = without_sign(s);
    eq_ignoring_case(t, "inf"@) || eq_ignoring_case(t, "infinity"@) || eq_ignoring_case(t, "nan"@)
        || is_mantissa(t) || exists|i: int|
        0 <= i < t.len() && is_e(t[i]) && is_mantissa(t.take(i)) && is_exponent(
            #[trigger] t.skip(i + 1),
        )
}

/// Whether `v[a..b]` equals the lower-case text `lit` when ASCII case is
/// ignored.
fn eq_ignoring_case_at(v: &Vec<char>, a: usize, b: usize, lit: &str) -> (r: bool)
    requires
        a <= b <= v@.len(),
    ensures
        r == eq_ignoring_case(v@.subrange(a as int, b as int), lit@),
{
    let n = lit.unicode_len();
    if b - a != n {
        return false;
    }
    let mut i: usize = 0;
    while i < n
        invariant
            a <= b <= v@.len(),
            b - a == n == lit@.len(),
            i <= n,
            forall|j: int|
                0 <= j < i ==> #[trigger] v@[a + j] == lit@[j] || ('a' <= lit@[j] && lit@[j] <= 'z'
                    && v@[a + j] as u32 + 32 == lit@[j] as u32),
        decreases n - i,
    {
        let c = v[a + i];
        let l = lit.get_char(i);
        if !(c == l || ('a' <= l && l <= 'z' && c as u32 == l as u32 - 32)) {
            assert(v@.subrange(a as int, b as int)[i as int] == c);
            return false;
        }
        i = i + 1;
    }
    assert forall|j: int| 0 <= j < n implies #[trigger] v@.subrange(a as int, b as int)[j] == lit@[j] || (
    'a' <= lit@[j] && lit@[j] <= 'z' && v@.subrange(a as int, b as int)[j] as u32 + 32
        == lit@[j] as u32) by {
        assert(v@.subrange(a as int, b as int)[j] == v@[a + j]);
    }
    true
}

/// The first position in `v[a..b]` that holds `c` or `d`, or `b`.
fn find_either(v: &Vec<char>, a: usize, b: usize, c: char, d: char) -> (r: usize)
    requires
        a <= b <= v@.len(),
    ensures
        a <= r <= b,
        forall|j: int| a <= j < r ==> #[trigger] v@[j] != c && v@[j] != d,
        r < b ==> v@[r as int] == c || v@[r as int] == d,
{
    let mut i: usize = a;
    while i < b
        invariant
            a <= i <= b <= v@.len(),
            forall|j: int| a <= j < i ==> #[trigger] v@[j] != c && v@[j] != d,
        decreases b - i,
    {
        if v[i] == c || v[i] == d {
            return i;
        }
        i = i + 1;
    }
    b
}

fn mantissa_at(v: &Vec<char>, a: usize, b: usize) -> (r: bool)
    requires
        a <= b <= v@.len(),
    ensures
        r == is_mantissa(v@.subrange(a as int, b as int)),
{
    let ghost m = v@.subrange(a as int, b as int);
    let i = find_either(v, a, b, '.', '.');
    if i == b {
        let r = b > a && crate::text::digits_only(v, a, b);
        assert(!(exists|k: int| 0 <= k < m.len() && m[k] == '.' && all_digits(m.take(k)) && all_digits(
            #[trigger] m.skip(k + 1),
        ))) by {
            assert forall|k: int| 0 <= k < m.len() implies m[k] != '.' by {
                assert(m[k] == v@[a + k]);
            }
        }
        r
    } else {
        let k = i - a;
        assert(m[k as int] == '.');
        assert(!is_digit(m[k as int]));
        assert(m.take(k as int) =~= v@.subrange(a as int, i as int));
        assert(m.skip(k + 1) =~= v@.subrange(i + 1, b as int));
        let r = b - a > 1 && crate::text::digits_only(v, a, i) && crate::text::digits_only(
            v,
            i + 1,
            b,
        );
        assert(r == is_mantissa(m)) by {
            if exists|j: int| 0 <= j < m.len() && m[j] == '.' && all_digits(m.take(j)) && all_digits(
                #[trigger] m.skip(j + 1),
            ) {
                let j = choose|j: int|
                    0 <= j < m.len() && m[j] == '.' && all_digits(m.take(j)) && all_digits(
                        #[trigger] m.skip(j + 1),
                    );
                if j < k {
                    assert(m[j] == v@[a + j]);
                } else if j > k {
                    assert(m.take(j)[k as int] == '.');
                }
            }
        }
        r
    }
}

/// Whether Rust would read `s` as a 64-bit float.
#[verifier::rlimit(60)]
pub fn is_float(s: &str) -> (r: bool)
    ensures
        r == is_float_text(s@),
{
    let v = chars_of(s);
    let n = v.len();
    let mut a: usize = 0;
    if n > 0 && (v[0] == '+' || v[0] == '-') {
        a = 1;
    }
    let ghost t = v@.subrange(a as int, n as int);
    assert(t == without_sign(s@)) by {
        if a == 0 {
            assert(t =~= s@);
        } else {
            assert(t =~= s@.drop_first());
        }
    }
    if eq_ignoring_case_at(&v, a, n, "inf") || eq_ignoring_case_at(&v, a, n, "infinity")
        || eq_ignoring_case_at(&v, a, n, "nan") {
        return true;
    }
    if mantissa_at(&v, a, n) {
        return true;
    }
    let i = find_either(&v, a, n, 'e', 'E');
    if i == n {
        assert forall|j: int| 0 <= j < t.len() implies !is_e(t[j]) by {
            assert(t[j] == v@[a + j]);
        }
        return false;
    }
    let k = i - a;
    assert(t.take(k as int) =~= v@.subrange(a as int, i as int));
    assert(t.skip(k + 1) =~= v@.subrange(i + 1, n as int));
    assert(is_e(t[k as int]));
    let mut x: usize = i + 1;
    if x < n && (v[x] == '+' || v[x] == '-') {
        x = x + 1;
    }
    let exp_ok = x < n && crate::text::digits_only(&v, x, n);
    assert(exp_ok == is_exponent(t.skip(k + 1))) by {
        let e = t.skip(k + 1);
        if x == i + 2 {
            assert(without_sign(e) =~= v@.subrange(x as int, n as int));
        } else {
            assert(without_sign(e) =~= v@.subrange(x as int, n as int));
        }
    }
    let r = mantissa_at(&v, a, i) && exp_ok;
    assert(r == is_float_text(s@)) by {
        if exists|j: int|
            0 <= j < t.len() && is_e(t[j]) && is_mantissa(t.take(j)) && is_exponent(
                #[trigger] t.skip(j + 1),
            ) {
            let j = choose|j: int|
                0 <= j < t.len() && is_e(t[j]) && is_mantissa(t.take(j)) && is_exponent(
                    #[trigger] t.skip(j + 1),
                );
            if j < k {
                assert(t[j] == v@[a + j]);
            } else if j > k {
                let m = t.take(j);
                assert(m[k as int] == t[k as int]);
                assert(!is_digit(m[k as int]));
                if m.len() > 1 && exists|q: int|
                    0 <= q < m.len() && m[q] == '.' && all_digits(m.take(q)) && all_digits(
                        #[trigger] m.skip(q + 1),
                    ) {
                    let q = choose|q: int|
                        0 <= q < m.len() && m[q] == '.' && all_digits(m.take(q)) && all_digits(
                            #[trigger] m.skip(q + 1),
                        );
                    if k < q {
                        assert(m.take(q)[k as int] == m[k as int]);
                    } else {
                        assert(m.skip(q + 1)[k - q - 1] == m[k as int]);
                    }
                }
            }
        }
    }
    r
}

/// A link attribute of LwM2M. Floating-point thresholds are kept as the
/// text that was checked to read as a float.
#[derive(Debug)]
pub enum Lwm2mAttribute {
    Dimension(u64),
    Ssid(u64),
    Uri(String),
    ObjectVersion(String),
    Lwm2mVersion(Lwm2mVersion),
    MinPeriod(u64),
    MaxPeriod(u64),
    GreaterThan(String),
    LessThan(String),
    Step(String),
    MinEvalPeriod(u64),
    MaxEvalPeriod(u64),
    Edge(bool),
    Confirmable(bool),
    MaxHistoricalQueue(u64),
    /// A content-format number that coap-lite knows.
    ContentType(usize),
    /// An attribute this server does not know; its raw value.
    Unknown(String),
}

/// A link attribute with its texts as character sequences.
pub enum AttributeView {
    Dimension(u64),
    Ssid(u64),
    Uri(Seq<char>),
    ObjectVersion(Seq<char>),
    Lwm2mVersion(Lwm2mVersion),
    MinPeriod(u64),
    MaxPeriod(u64),
    GreaterThan(Seq<char>),
    LessThan(Seq<char>),
    Step(Seq<char>),
    MinEvalPeriod(u64),
    MaxEvalPeriod(u64),
    Edge(bool),
    Confirmable(bool),
    MaxHistoricalQueue(u64),
    ContentType(usize),
    Unknown(Seq<char>),
}

impl View for Lwm2mAttribute {
    type V = AttributeView;

    open spec fn view(&self) -> AttributeView {
        match self {
            Lwm2mAttribute::Dimension(x) => AttributeView::Dimension(*x),
            Lwm2mAttribute::Ssid(x) => AttributeView::Ssid(*x),
            Lwm2mAttribute::Uri(x) => AttributeView::Uri(x@),
            Lwm2mAttribute::ObjectVersion(x) => AttributeView::ObjectVersion(x@),
            Lwm2mAttribute::Lwm2mVersion(x) => AttributeView::Lwm2mVersion(*x),
            Lwm2mAttribute::MinPeriod(x) => AttributeView::MinPeriod(*x),
            Lwm2mAttribute::MaxPeriod(x) => AttributeView::MaxPeriod(*x),
            Lwm2mAttribute::GreaterThan(x) => AttributeView::GreaterThan(x@),
            Lwm2mAttribute::LessThan(x) => AttributeView::LessThan(x@),
            Lwm2mAttribute::Step(x) => AttributeView::Step(x@),
            Lwm2mAttribute::MinEvalPeriod(x) => AttributeView::MinEvalPeriod(*x),
            Lwm2mAttribute::MaxEvalPeriod(x) => AttributeView::MaxEvalPeriod(*x),
            Lwm2mAttribute::Edge(x) => AttributeView::Edge(*x),
            Lwm2mAttribute::Confirmable(x) => AttributeView::Confirmable(*x),
            Lwm2mAttribute::MaxHistoricalQueue(x) => AttributeView::MaxHistoricalQueue(*x),
            Lwm2mAttribute::ContentType(x) => AttributeView::ContentType(*x),
            Lwm2mAttribute::Unknown(x) => AttributeView::Unknown(x@),
        }
    }
}

pub const U64_MAX: u64 = 0xffff_ffff_ffff_ffff;

/// An attribute that holds a 64-bit number, or the refusal of its value.
pub open spec fn u64_attribute(
    value: Seq<char>,
    label: Seq<char>,
    make: spec_fn(u64) -> AttributeView,
) -> Result<AttributeView, (ResponseCode, Seq<char>)> {
    if is_unsigned(value, U64_MAX as nat) {
        Ok(make(unsigned_value(value) as u64))
    } else {
        Err((ResponseCode::NotAcceptable, label + " valuetype should be u64, is "@ + value))
    }
}

pub open spec fn f64_attribute(
    value: Seq<char>,
    label: Seq<char>,
    make: spec_fn(Seq<char>) -> AttributeView,
) -> Result<AttributeView, (ResponseCode, Seq<char>)> {
    if is_float_text(value) {
        Ok(make(value))
    } else {
        Err((ResponseCode::NotAcceptable, label + " valuetype should be f64, is "@ + value))
    }
}

pub open spec fn bool_attribute(
    value: Seq<char>,
    label: Seq<char>,
    make: spec_fn(bool) -> AttributeView,
) -> Result<AttributeView, (ResponseCode, Seq<char>)> {
    if is_unsigned(value, 255) && unsigned_value(value) == 0 {
        Ok(make(false))
    } else if is_unsigned(value, 255) && unsigned_value(value) == 1 {
        Ok(make(true))
    } else {
        Err((ResponseCode::NotAcceptable, label + " parameter "@ + value + " should be a 0 or 1"@))
    }
}

/// The attribute a name and value stand for, or the refusal of the value.
pub open spec fn attribute_of(name: Seq<char>, value: Seq<char>) -> Result<
    AttributeView,
    (ResponseCode, Seq<char>),
> {
    if name == "dim"@ {
        if is_unsigned(value, U64_MAX as nat) {
            Ok(AttributeView::Dimension(unsigned_value(value) as u64))
        } else {
            Err(
                (ResponseCode::NotAcceptable, "Dimension value "@ + value + " should be 0-255"@),
            )
        }
    } else if name == "ssid"@ {
        if is_unsigned(value, U64_MAX as nat) {
            Ok(AttributeView::Ssid(unsigned_value(value) as u64))
        } else {
            Err(
                (
                    ResponseCode::NotAcceptable,
                    "Short Server ID (SSID) value "@ + value + " should be 0-65534"@,
                ),
            )
        }
    } else if name == "uri"@ {
        Ok(AttributeView::Uri(value))
    } else if name == "ver"@ {
        Ok(AttributeView::ObjectVersion(value))
    } else if eq_ignoring_case(name, "lwm2m"@) {
        match lwm2m_version_of(value) {
            Some(v) => Ok(AttributeView::Lwm2mVersion(v)),
            None => Err(
                (ResponseCode::NotAcceptable, "LWM2M Version "@ + value + " is not supported."@),
            ),
        }
    } else if name == "pmin"@ {
        u64_attribute(value, "Minimum Period"@, |x: u64| AttributeView::MinPeriod(x))
    } else if name == "pmax"@ {
        u64_attribute(value, "Maximum Period"@, |x: u64| AttributeView::MaxPeriod(x))
    } else if name == "gt"@ {
        f64_attribute(value, "Greater Than"@, |x: Seq<char>| AttributeView::GreaterThan(x))
    } else if name == "lt"@ {
        f64_attribute(value, "Less Than"@, |x: Seq<char>| AttributeView::LessThan(x))
    } else if name == "st"@ {
        f64_attribute(value, "Step"@, |x: Seq<char>| AttributeView::Step(x))
    } else if name == "epmin"@ {
        u64_attribute(value, "Minimum Evaluation Period"@, |x: u64| AttributeView::MinEvalPeriod(x))
    } else if name == "epmax"@ {
        u64_attribute(value, "Maximum Evaluation Period"@, |x: u64| AttributeView::MaxEvalPeriod(x))
    } else if name == "edge"@ {
        bool_attribute(value, "Edge"@, |x: bool| AttributeView::Edge(x))
    } else if name == "con"@ {
        bool_attribute(value, "Confirmable Notification"@, |x: bool| AttributeView::Confirmable(x))
    } else if name == "hqmax"@ {
        u64_attribute(value, "Maximum Historical Queue"@, |x: u64| AttributeView::MaxHistoricalQueue(x))
    } else if name == "ct"@ {
        if !is_unsigned(value, usize::MAX as nat) {
            Err((ResponseCode::NotAcceptable, "ct value should be an integer"@))
        } else if !is_content_format_code(unsigned_value(value) as usize) {
            Err(
                (
                    ResponseCode::NotAcceptable,
                    "ct value "@ + value + " not recognized as content format"@,
                ),
            )
        } else {
            Ok(AttributeView::ContentType(unsigned_value(value) as usize))
        }
    } else {
        Ok(AttributeView::Unknown(value))
    }
}

/// Whether an executable result agrees with a result of the description.
pub open spec fn agrees_attr(
    r: Result<Lwm2mAttribute, RequestError>,
    s: Result<AttributeView, (ResponseCode, Seq<char>)>,
) -> bool {
    match (r, s) {
        (Ok(a), Ok(v)) => a@ == v,
        (Err(e), Err((c, m))) => e.code == c && e.message@ == m,
        _ => false,
    }
}

fn u64_value(value: &str, label: &str) -> (r: Result<u64, RequestError>)
    ensures
        match r {
            Ok(x) => is_unsigned(value@, U64_MAX as nat) && x == unsigned_value(value@),
            Err(e) => !is_unsigned(value@, U64_MAX as nat) && e.code == ResponseCode::NotAcceptable
                && e.message@ == label@ + " valuetype should be u64, is "@ + value@,
        },
{
    match parse_number(value, U64_MAX) {
        Some(x) => Ok(x),
        None => Err(
            RequestError::with_value(
                ResponseCode::NotAcceptable,
                label,
                " valuetype should be u64, is ",
                value,
            ),
        ),
    }
}

fn f64_value(value: &str, label: &str) -> (r: Result<String, RequestError>)
    ensures
        match r {
            Ok(x) => is_float_text(value@) && x@ == value@,
            Err(e) => !is_float_text(value@) && e.code == ResponseCode::NotAcceptable
                && e.message@ == label@ + " valuetype should be f64, is "@ + value@,
        },
{
    if is_float(value) {
        Ok(value.to_owned())
    } else {
        Err(
            RequestError::with_value(
                ResponseCode::NotAcceptable,
                label,
                " valuetype should be f64, is ",
                value,
            ),
        )
    }
}

fn bool_value(value: &str, label: &str) -> (r: Result<bool, RequestError>)
    ensures
        match r {
            Ok(b) => is_unsigned(value@, 255) && unsigned_value(value@) == (if b { 1int } else { 0int }),
            Err(e) => !(is_unsigned(value@, 255) && unsigned_value(value@) <= 1) && e.code
                == ResponseCode::NotAcceptable && e.message@ == label@ + " parameter "@ + value@
                + " should be a 0 or 1"@,
        },
{
    match parse_number(value, 255) {
        Some(0) => Ok(false),
        Some(1) => Ok(true),
        _ => {
            let mut m = label.to_owned();
            m.append(" parameter ");
            m.append(value);
            m.append(" should be a 0 or 1");
            Err(RequestError { code: ResponseCode::NotAcceptable, message: m })
        },
    }
}

fn lowercase_letters_eq(name: &str, lit: &str) -> (r: bool)
    ensures
        r == eq_ignoring_case(name@, lit@),
{
    let v = chars_of(name);
    assert(v@.subrange(0, v@.len() as int) =~= name@);
    eq_ignoring_case_at(&v, 0, v.len(), lit)
}

impl Lwm2mAttribute {
    /// Reads one attribute of a link from its name and its (unquoted)
    /// value. Names this server does not know give `Unknown`.
    pub fn new(name: &str, value: &str) -> (r: Result<Lwm2mAttribute, RequestError>)
        ensures
            agrees_attr(r, attribute_of(name@, value@)),
    {
        if str_eq(name, "dim") {
            match parse_number(value, U64_MAX) {
                Some(x) => Ok(Lwm2mAttribute::Dimension(x)),
                None => Err(
                    RequestError::with_value(
                        ResponseCode::NotAcceptable,
                        "Dimension value ",
                        value,
                        " should be 0-255",
                    ),
                ),
            }
        } else if str_eq(name, "ssid") {
            match parse_number(value, U64_MAX) {
                Some(x) => Ok(Lwm2mAttribute::Ssid(x)),
                None => Err(
                    RequestError::with_value(
                        ResponseCode::NotAcceptable,
                        "Short Server ID (SSID) value ",
                        value,
                        " should be 0-65534",
                    ),
                ),
            }
        } else if str_eq(name, "uri") {
            Ok(Lwm2mAttribute::Uri(value.to_owned()))
        } else if str_eq(name, "ver") {
            Ok(Lwm2mAttribute::ObjectVersion(value.to_owned()))
        } else if lowercase_letters_eq(name, "lwm2m") {
            match Lwm2mVersion::parse(value) {
                Some(v) => Ok(Lwm2mAttribute::Lwm2mVersion(v)),
                None => Err(
                    RequestError::with_value(
                        ResponseCode::NotAcceptable,
                        "LWM2M Version ",
                        value,
                        " is not supported.",
                    ),
                ),
            }
        } else if str_eq(name, "pmin") {
            match u64_value(value, "Minimum Period") {
                Ok(x) => Ok(Lwm2mAttribute::MinPeriod(x)),
                Err(e) => Err(e),
            }
        } else if str_eq(name, "pmax") {
            match u64_value(value, "Maximum Period") {
                Ok(x) => Ok(Lwm2mAttribute::MaxPeriod(x)),
                Err(e) => Err(e),
            }
        } else if str_eq(name, "gt") {
            match f64_value(value, "Greater Than") {
                Ok(x) => Ok(Lwm2mAttribute::GreaterThan(x)),
                Err(e) => Err(e),
            }
        } else if str_eq(name, "lt") {
            match f64_value(value, "Less Than") {
                Ok(x) => Ok(Lwm2mAttribute::LessThan(x)),
                Err(e) => Err(e),
            }
        } else if str_eq(name, "st") {
            match f64_value(value, "Step") {
                Ok(x) => Ok(Lwm2mAttribute::Step(x)),
                Err(e) => Err(e),
            }
        } else if str_eq(name, "epmin") {
            match u64_value(value, "Minimum Evaluation Period") {
                Ok(x) => Ok(Lwm2mAttribute::MinEvalPeriod(x)),
                Err(e) => Err(e),
            }
        } else if str_eq(name, "epmax") {
            match u64_value(value, "Maximum Evaluation Period") {
                Ok(x) => Ok(Lwm2mAttribute::MaxEvalPeriod(x)),
                Err(e) => Err(e),
            }
        } else if str_eq(name, "edge") {
            match bool_value(value, "Edge") {
                Ok(b) => Ok(Lwm2mAttribute::Edge(b)),
                Err(e) => Err(e),
            }
        } else if str_eq(name, "con") {
            match bool_value(value, "Confirmable Notification") {
                Ok(b) => Ok(Lwm2mAttribute::Confirmable(b)),
                Err(e) => Err(e),
            }
        } else if str_eq(name, "hqmax") {
            match u64_value(value, "Maximum Historical Queue") {
                Ok(x) => Ok(Lwm2mAttribute::MaxHistoricalQueue(x)),
                Err(e) => Err(e),
            }
        } else if str_eq(name, "ct") {
            match parse_number(value, usize::MAX as u64) {
                None => Err(
                    RequestError::new(ResponseCode::NotAcceptable, "ct value should be an integer"),
                ),
                Some(x) => {
                    let ct = x as usize;
                    if is_content_format(ct) {
                        Ok(Lwm2mAttribute::ContentType(ct))
                    } else {
                        Err(
                            RequestError::with_value(
                                ResponseCode::NotAcceptable,
                                "ct value ",
                                value,
                                " not recognized as content format",
                            ),
                        )
                    }
                },
            }
        } else {
            Ok(Lwm2mAttribute::Unknown(value.to_owned()))
        }
    }
}

} // verus!
