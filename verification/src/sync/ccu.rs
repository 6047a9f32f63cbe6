//! Homematic CCU / RaspberryMatic: the XML-API device list.
use vstd::prelude::*;
use vstd::utf8::*;
use base64::Engine;
use crate::types::{Device, device_view, opt_view, text};
use crate::text::{
    ascii_upper, chars_of, contains_seq, equals_text, has_text, push_chars, str_contains, string_of,
    strip_trailing, to_ascii_upper, trim_chars, trim_end_char, trimmed,
};

verus! {

/// A device of the CCU's device list.
#[derive(Debug, Clone, PartialEq, Eq)]
pub struct CcuDevice {
    pub address: String,
    pub name: String,
    pub device_type: String,
    pub interface: String,
    pub firmware: String,
    pub updatable: bool,
}

/// A CCU device as plain values.
pub open spec fn ccu_view(d: CcuDevice) -> (Seq<char>, Seq<char>, Seq<char>, Seq<char>, Seq<char>, bool) {
    (d.address@, d.name@, d.device_type@, d.interface@, d.firmware@, d.updatable)
}

/// An attribute of an XML element: namespace, local name, value.
pub struct XmlAttr {
    pub namespace: Option<String>,
    pub name: String,
    pub value: String,
}

/// A child node of the root element: whether it is an element, its local
/// name (empty for other nodes) and its attributes.
pub struct XmlChild {
    pub is_element: bool,
    pub name: String,
    pub attributes: Vec<XmlAttr>,
}

/// The part of a parsed XML document the device list reads: the root
/// element's local name and its child nodes.
pub struct XmlOutline {
    pub root_name: String,
    pub children: Vec<XmlChild>,
}

/// An attribute as plain values.
pub open spec fn attr_view(a: XmlAttr) -> (Option<Seq<char>>, Seq<char>, Seq<char>) {
    (opt_view(a.namespace), a.name@, a.value@)
}

/// A child node as plain values.
pub open spec fn child_view(c: XmlChild) -> (bool, Seq<char>, Seq<(Option<Seq<char>>, Seq<char>, Seq<char>)>) {
    (c.is_element, c.name@, c.attributes@.map_values(|a: XmlAttr| attr_view(a)))
}

/// The outline as plain values.
pub open spec fn outline_view(o: XmlOutline) -> (
    Seq<char>,
    Seq<(bool, Seq<char>, Seq<(Option<Seq<char>>, Seq<char>, Seq<char>)>)>,
) {
    (o.root_name@, o.children@.map_values(|c: XmlChild| child_view(c)))
}

/// The outline of an XML text as `roxmltree` parses it: `None` when it
/// refuses the text.
pub uninterp spec fn xml_outline(xml: Seq<char>) -> Option<
    (Seq<char>, Seq<(bool, Seq<char>, Seq<(Option<Seq<char>>, Seq<char>, Seq<char>)>)>),
>;

/// Parses XML with `roxmltree::Document::parse` and copies out the root
/// element's name and its children (kind, local name, attributes). Claimed:
/// the outline is `xml_outline(xml)`, and an error exactly when that is
/// `None`; the error text is roxmltree's message, of which nothing is said.
#[verifier::external_body]
fn parse_xml_outline(xml: &str) -> (r: Result<XmlOutline, String>)
    ensures
        match r {
            Ok(o) => xml_outline(xml@) == Some(outline_view(o)),
            Err(_) => xml_outline(xml@) is None,
        },
{
    let doc = roxmltree::Document::parse(xml).map_err(|e| e.to_string())?;
    let root = doc.root_element();
    let children = root.children().map(|n| XmlChild {
        is_element: n.is_element(),
        name: n.tag_name().name().to_string(),
        attributes: n.attributes().map(|a| XmlAttr {
            namespace: a.namespace().map(|s| s.to_string()),
            name: a.name().to_string(),
            value: a.value().to_string(),
        }).collect(),
    }).collect();
    Ok(XmlOutline { root_name: root.tag_name().name().to_string(), children })
}

/// Why the device list could not be had.
#[derive(Debug, PartialEq, Eq)]
pub enum CcuError {
    /// The XML parser refused the text; its message.
    Xml(String),
    /// The root element is not `deviceList`; its name.
    UnexpectedRoot(String),
    /// A user is configured without password.
    UserWithoutPassword,
    /// A password is configured without user.
    PasswordWithoutUser,
    /// The XML-API answered `<not_authenticated/>`.
    NotAuthenticated,
}

/// The message for a device-list error.
pub open spec fn ccu_error_text(e: CcuError) -> Seq<char> {
    match e {
        CcuError::Xml(m) => "XML parsen: "@ + m@,
        CcuError::UnexpectedRoot(n) => "unerwartetes Root-Element: "@ + n@,
        CcuError::UserWithoutPassword => "CCU auth misconfigured: CCU_USER is set but CCU_PASSWORD is empty. Set both CCU_USER and CCU_PASSWORD together (or unset both for CCUs without authentication)."@,
        CcuError::PasswordWithoutUser => "CCU auth misconfigured: CCU_PASSWORD is set but CCU_USER is empty. Set both CCU_USER and CCU_PASSWORD together (or unset both for CCUs without authentication)."@,
        CcuError::NotAuthenticated => "CCU XML-API returned <not_authenticated/>. Set CCU_USER + CCU_PASSWORD env vars (preferred over CLI args), or disable CCU authentication for the XML-API addon."@,
    }
}

impl CcuError {
    /// The message for the operator.
    pub fn message(&self) -> (r: String)
        ensures
            r@ == ccu_error_text(*self),
    {
        match self {
            CcuError::Xml(m) => {
                let mut r = text("XML parsen: ");
                r.append(m.as_str());
                assert(r@ =~= ccu_error_text(*self));
                r
            },
            CcuError::UnexpectedRoot(n) => {
                let mut r = text("unerwartetes Root-Element: ");
                r.append(n.as_str());
                assert(r@ =~= ccu_error_text(*self));
                r
            },
            CcuError::UserWithoutPassword => text(
                "CCU auth misconfigured: CCU_USER is set but CCU_PASSWORD is empty. Set both CCU_USER and CCU_PASSWORD together (or unset both for CCUs without authentication).",
            ),
            CcuError::PasswordWithoutUser => text(
                "CCU auth misconfigured: CCU_PASSWORD is set but CCU_USER is empty. Set both CCU_USER and CCU_PASSWORD together (or unset both for CCUs without authentication).",
            ),
            CcuError::NotAuthenticated => text(
                "CCU XML-API returned <not_authenticated/>. Set CCU_USER + CCU_PASSWORD env vars (preferred over CLI args), or disable CCU authentication for the XML-API addon.",
            ),
        }
    }
}

/// The value of the first attribute without namespace named `name`.
pub open spec fn attr_lookup(attrs: Seq<(Option<Seq<char>>, Seq<char>, Seq<char>)>, name: Seq<char>) -> Option<
    Seq<char>,
>
    decreases attrs.len(),
{
    if attrs.len() == 0 {
        None
    } else if attrs[0].0 is None && attrs[0].1 == name {
        Some(attrs[0].2)
    } else {
        attr_lookup(attrs.drop_first(), name)
    }
}

/// An attribute's value, or nothing.
pub open spec fn attr_or_empty(attrs: Seq<(Option<Seq<char>>, Seq<char>, Seq<char>)>, name: Seq<char>) -> Seq<char> {
    match attr_lookup(attrs, name) {
        Some(v) => v,
        None => seq![],
    }
}

/// The devices of the root's `device` children, in order; children without
/// address are skipped; `updatable` is set by the attribute value `1`.
pub open spec fn devices_of(children: Seq<(bool, Seq<char>, Seq<(Option<Seq<char>>, Seq<char>, Seq<char>)>)>) -> Seq<
    (Seq<char>, Seq<char>, Seq<char>, Seq<char>, Seq<char>, bool),
>
    decreases children.len(),
{
    if children.len() == 0 {
        seq![]
    } else {
        let c = children.last();
        let before = devices_of(children.drop_last());
        if c.0 && c.1 == "device"@ && attr_or_empty(c.2, "address"@).len() > 0 {
            before.push(
                (
                    attr_or_empty(c.2, "address"@),
                    attr_or_empty(c.2, "name"@),
                    attr_or_empty(c.2, "device_type"@),
                    attr_or_empty(c.2, "interface"@),
                    attr_or_empty(c.2, "firmware"@),
                    attr_lookup(c.2, "updatable"@) == Some("1"@),
                ),
            )
        } else {
            before
        }
    }
}

/// The CCU devices as plain values.
pub open spec fn ccu_views(v: Seq<CcuDevice>) -> Seq<(Seq<char>, Seq<char>, Seq<char>, Seq<char>, Seq<char>, bool)> {
    v.map_values(|d: CcuDevice| ccu_view(d))
}

fn find_attr(attrs: &Vec<XmlAttr>, name: &str) -> (r: Option<String>)
    ensures
        opt_view(r) == attr_lookup(attrs@.map_values(|a: XmlAttr| attr_view(a)), name@),
{
    let ghost av = attrs@.map_values(|a: XmlAttr| attr_view(a));
    let mut i: usize = 0;
    assert(av.skip(0) =~= av);
    while i < attrs.len()
        invariant
            av == attrs@.map_values(|a: XmlAttr| attr_view(a)),
            i <= attrs@.len(),
            attr_lookup(av, name@) == attr_lookup(av.skip(i as int), name@),
        decreases attrs@.len() - i,
    {
        let ghost rest = av.skip(i as int);
        assert(rest[0] == attr_view(attrs@[i as int]));
        assert(rest.drop_first() =~= av.skip(i + 1));
        let a = &attrs[i];
        if a.namespace.is_none() && equals_text(chars_of(a.name.as_str()).as_slice(), name) {
            return Some(a.value.clone());
        }
        i = i + 1;
    }
    assert(av.skip(i as int) =~= Seq::<(Option<Seq<char>>, Seq<char>, Seq<char>)>::empty());
    None
}

fn attr_text(attrs: &Vec<XmlAttr>, name: &str) -> (r: String)
    ensures
        r@ == attr_or_empty(attrs@.map_values(|a: XmlAttr| attr_view(a)), name@),
{
    match find_attr(attrs, name) {
        Some(v) => v,
        None => String::new(),
    }
}

/// Parses the CCU's XML device list: the root must be `deviceList`; each
/// `device` child with an address becomes a device (channels, nested
/// deeper, are not read).
pub fn parse_devicelist(xml: &str) -> (r: Result<Vec<CcuDevice>, CcuError>)
    ensures
        match xml_outline(xml@) {
            None => r matches Err(CcuError::Xml(_)),
            Some((root, children)) => if root != "deviceList"@ {
                r matches Err(CcuError::UnexpectedRoot(n)) && n@ == root
            } else {
                r matches Ok(v) && ccu_views(v@) == devices_of(children)
            },
        },
{
    let o = match parse_xml_outline(xml) {
        Ok(o) => o,
        Err(m) => {
            return Err(CcuError::Xml(m));
        },
    };
    if !equals_text(chars_of(o.root_name.as_str()).as_slice(), "deviceList") {
        return Err(CcuError::UnexpectedRoot(o.root_name));
    }
    let ghost cv = o.children@.map_values(|c: XmlChild| child_view(c));
    let mut out: Vec<CcuDevice> = Vec::new();
    let mut i: usize = 0;
    while i < o.children.len()
        invariant
            cv == o.children@.map_values(|c: XmlChild| child_view(c)),
            i <= o.children@.len(),
            ccu_views(out@) == devices_of(cv.take(i as int)),
        decreases o.children@.len() - i,
    {
        let c = &o.children[i];
        assert(cv.take(i + 1).drop_last() =~= cv.take(i as int));
        assert(cv.take(i + 1).last() == child_view(*c));
        if c.is_element && equals_text(chars_of(c.name.as_str()).as_slice(), "device") {
            let address = attr_text(&c.attributes, "address");
            if !address.as_str().is_empty() {
                let name = attr_text(&c.attributes, "name");
                let device_type = attr_text(&c.attributes, "device_type");
                let interface = attr_text(&c.attributes, "interface");
                let firmware = attr_text(&c.attributes, "firmware");
                let updatable = match find_attr(&c.attributes, "updatable") {
                    Some(v) => equals_text(chars_of(v.as_str()).as_slice(), "1"),
                    None => false,
                };
                let ghost before = ccu_views(out@);
                out.push(CcuDevice { address, name, device_type, interface, firmware, updatable });
                assert(ccu_views(out@) =~= before.push(ccu_view(out@.last())));
            }
        }
        i = i + 1;
    }
    assert(cv.take(i as int) =~= cv);
    Ok(out)
}

/// Whether a device is a virtual receiver node (`...-RCV-...`).
pub fn is_virtual(d: &CcuDevice) -> (r: bool)
    ensures
        r == contains_seq(d.device_type@, "-RCV-"@),
{
    has_text(chars_of(d.device_type.as_str()).as_slice(), "-RCV-")
}

/// The kind a device type suggests (compared in upper case).
pub open spec fn ccu_kind(device_type: Seq<char>) -> Seq<char> {
    let dt = ascii_upper(device_type);
    if contains_seq(dt, "WTH"@) || contains_seq(dt, "CC"@) {
        "thermostat"@
    } else if contains_seq(dt, "LC-SW"@) || contains_seq(dt, "-SW"@) || contains_seq(dt, "-PS"@) {
        "switch"@
    } else if contains_seq(dt, "LC-BL"@) || contains_seq(dt, "FROLL"@) || contains_seq(dt, "BROLL"@) {
        "cover"@
    } else if contains_seq(dt, "LC-DIM"@) {
        "dimmer"@
    } else if contains_seq(dt, "-PB"@) || contains_seq(dt, "-RC-"@) {
        "button"@
    } else if contains_seq(dt, "SEC"@) || contains_seq(dt, "MOT"@) {
        "sensor"@
    } else {
        "other"@
    }
}

/// The kind of a device type (see `ccu_kind`).
pub fn kind_of(device_type: &str) -> (r: String)
    ensures
        r@ == ccu_kind(device_type@),
{
    let dt = to_ascii_upper(chars_of(device_type).as_slice());
    let d = dt.as_slice();
    if has_text(d, "WTH") || has_text(d, "CC") {
        text("thermostat")
    } else if has_text(d, "LC-SW") || has_text(d, "-SW") || has_text(d, "-PS") {
        text("switch")
    } else if has_text(d, "LC-BL") || has_text(d, "FROLL") || has_text(d, "BROLL") {
        text("cover")
    } else if has_text(d, "LC-DIM") {
        text("dimmer")
    } else if has_text(d, "-PB") || has_text(d, "-RC-") {
        text("button")
    } else if has_text(d, "SEC") || has_text(d, "MOT") {
        text("sensor")
    } else {
        text("other")
    }
}

/// The device a CCU device becomes: source `ccu`, its address as id, its
/// name (else the address), manufacturer eQ-3, the device type as model, the
/// kind it suggests, no room.
pub open spec fn ccu_device(d: CcuDevice) -> (
    Seq<char>,
    Seq<char>,
    Seq<char>,
    Option<Seq<char>>,
    Option<Seq<char>>,
    Option<Seq<char>>,
    Option<Seq<char>>,
) {
    (
        "ccu"@,
        d.address@,
        if d.name@.len() == 0 { d.address@ } else { d.name@ },
        Some("eQ-3"@),
        Some(d.device_type@),
        Some(ccu_kind(d.device_type@)),
        None,
    )
}

/// Maps one CCU device (see `ccu_device`).
pub fn to_device(d: &CcuDevice) -> (r: Device)
    ensures
        device_view(r) == ccu_device(*d),
{
    Device {
        source: text("ccu"),
        source_id: d.address.clone(),
        name: if d.name.as_str().is_empty() { d.address.clone() } else { d.name.clone() },
        manufacturer: Some(text("eQ-3")),
        model: Some(d.device_type.clone()),
        kind: Some(kind_of(d.device_type.as_str())),
        room: None,
    }
}

/// The devices of the non-virtual CCU devices, in order.
pub open spec fn mapped_ccu(devices: Seq<CcuDevice>) -> Seq<
    (Seq<char>, Seq<char>, Seq<char>, Option<Seq<char>>, Option<Seq<char>>, Option<Seq<char>>, Option<Seq<char>>),
>
    decreases devices.len(),
{
    if devices.len() == 0 {
        seq![]
    } else if contains_seq(devices.last().device_type@, "-RCV-"@) {
        mapped_ccu(devices.drop_last())
    } else {
        mapped_ccu(devices.drop_last()).push(ccu_device(devices.last()))
    }
}

/// The devices as plain values.
pub open spec fn device_views(v: Seq<Device>) -> Seq<
    (Seq<char>, Seq<char>, Seq<char>, Option<Seq<char>>, Option<Seq<char>>, Option<Seq<char>>, Option<Seq<char>>),
> {
    v.map_values(|d: Device| device_view(d))
}

/// Drops the virtual receiver nodes and maps the real devices.
pub fn map_to_devices(devices: &[CcuDevice]) -> (r: Vec<Device>)
    ensures
        device_views(r@) == mapped_ccu(devices@),
{
    let mut out: Vec<Device> = Vec::new();
    let mut i: usize = 0;
    while i < devices.len()
        invariant
            i <= devices@.len(),
            device_views(out@) == mapped_ccu(devices@.take(i as int)),
        decreases devices@.len() - i,
    {
        assert(devices@.take(i + 1).drop_last() =~= devices@.take(i as int));
        if !is_virtual(&devices[i]) {
            let ghost before = device_views(out@);
            out.push(to_device(&devices[i]));
            assert(device_views(out@) =~= before.push(device_view(out@.last())));
        }
        i = i + 1;
    }
    assert(devices@.take(devices@.len() as int) =~= devices@);
    out
}

/// The base64 digit for a value below 64 (RFC 4648 standard alphabet).
pub open spec fn base64_digit(n: int) -> char {
    if n < 26 {
        (n + 65) as char
    } else if n < 52 {
        (n - 26 + 97) as char
    } else if n < 62 {
        (n - 52 + 48) as char
    } else if n == 62 {
        '+'
    } else {
        '/'
    }
}

/// Standard base64 with padding (RFC 4648, section 4): each three bytes
/// become four digits of six bits; a last group of one or two bytes is
/// padded with `=`.
pub open spec fn base64_standard(b: Seq<u8>) -> Seq<char>
    decreases b.len(),
{
    if b.len() == 0 {
        Seq::empty()
    } else {
        let x = b[0] as int;
        let y = if b.len() > 1 { b[1] as int } else { 0 };
        let z = if b.len() > 2 { b[2] as int } else { 0 };
        let d0 = base64_digit(x / 4);
        let d1 = base64_digit((x % 4) * 16 + y / 16);
        let d2 = base64_digit((y % 16) * 4 + z / 64);
        let d3 = base64_digit(z % 64);
        if b.len() == 1 {
            seq![d0, d1, '=', '=']
        } else if b.len() == 2 {
            seq![d0, d1, d2, '=']
        } else {
            seq![d0, d1, d2, d3] + base64_standard(b.skip(3))
        }
    }
}

/// Encodes bytes with `base64`'s `STANDARD` engine (RFC 4648 alphabet,
/// with padding). Claimed: the text is `base64_standard(bytes)`.
#[verifier::external_body]
fn base64_encode(bytes: &[u8]) -> (s: String)
    ensures
        s@ == base64_standard(bytes@),
{
    base64::engine::general_purpose::STANDARD.encode(bytes)
}

/// The `Authorization` value `Basic <base64(user:password)>`.
pub open spec fn basic_auth_text(user: Seq<char>, password: Seq<char>) -> Seq<char> {
    "Basic "@ + base64_standard(encode_utf8(user + seq![':'] + password))
}

/// Builds the Basic-Auth header value for `user` and `password`.
pub fn basic_auth_header(user: &str, password: &str) -> (r: String)
    ensures
        r@ == basic_auth_text(user@, password@),
{
    let mut creds = chars_of(user);
    creds.push(':');
    let p = chars_of(password);
    let ghost c0 = creds@;
    let mut i: usize = 0;
    while i < p.len()
        invariant
            i <= p@.len(),
            creds@ == c0 + p@.take(i as int),
        decreases p@.len() - i,
    {
        creds.push(p[i]);
        i = i + 1;
        assert(creds@ =~= c0 + p@.take(i as int));
    }
    assert(p@.take(p@.len() as int) =~= p@);
    let cs = string_of(creds.as_slice());
    let enc = base64_encode(cs.as_str().as_bytes());
    let mut out = String::new();
    out.append("Basic ");
    out.append(enc.as_str());
    assert(creds@ =~= user@ + seq![':'] + password@);
    assert(out@ =~= basic_auth_text(user@, password@));
    out
}

/// The request for the device list: its URL and, when both user and
/// password are given, the `Authorization` value.
#[derive(Debug, PartialEq, Eq)]
pub struct CcuRequest {
    pub url: String,
    pub authorization: Option<String>,
}

/// The device-list URL under a base URL (trailing `/` dropped).
pub open spec fn devicelist_url(base_url: Seq<char>) -> Seq<char> {
    strip_trailing(base_url, '/') + "/addons/xmlapi/devicelist.cgi"@
}

/// Whether a setting is given: present and not empty.
pub open spec fn is_set(v: Option<&str>) -> bool {
    match v {
        Some(s) => s@.len() > 0,
        None => false,
    }
}

/// A user is set, but the password is absent or empty.
pub open spec fn user_without_password(user: Option<&str>, password: Option<&str>) -> bool {
    is_set(user) && !is_set(password)
}

/// A password is set, but the user is absent or empty.
pub open spec fn password_without_user(user: Option<&str>, password: Option<&str>) -> bool {
    is_set(password) && !is_set(user)
}

fn set(v: Option<&str>) -> (r: bool)
    ensures
        r == is_set(v),
{
    match v {
        Some(s) => !s.is_empty(),
        None => false,
    }
}

/// Plans the device-list request. Half-configured credentials are a
/// configuration error: a user without password, or a password without
/// user (an empty setting counts as not set). With both set the request
/// carries Basic auth; with neither it carries none.
pub fn devicelist_request(base_url: &str, user: Option<&str>, password: Option<&str>) -> (r: Result<
    CcuRequest,
    CcuError,
>)
    ensures
        user_without_password(user, password) ==> r == Err::<CcuRequest, CcuError>(
            CcuError::UserWithoutPassword,
        ),
        password_without_user(user, password) ==> r == Err::<CcuRequest, CcuError>(
            CcuError::PasswordWithoutUser,
        ),
        !user_without_password(user, password) && !password_without_user(user, password) ==> (r matches Ok(
            req,
        ) && req.url@ == devicelist_url(base_url@) && match (user, password) {
            (Some(u), Some(p)) => if is_set(user) && is_set(password) {
                req.authorization matches Some(a) && a@ == basic_auth_text(u@, p@)
            } else {
                req.authorization is None
            },
            _ => req.authorization is None,
        }),
{
    let has_user = set(user);
    let has_password = set(password);
    if has_user && !has_password {
        return Err(CcuError::UserWithoutPassword);
    }
    if has_password && !has_user {
        return Err(CcuError::PasswordWithoutUser);
    }
    let mut url = String::new();
    let base = trim_end_char(chars_of(base_url).as_slice(), '/');
    push_chars(&mut url, base.as_slice());
    url.append("/addons/xmlapi/devicelist.cgi");
    assert(url@ =~= devicelist_url(base_url@));
    let authorization = match (user, password) {
        (Some(u), Some(p)) => {
            if !u.is_empty() && !p.is_empty() {
                Some(basic_auth_header(u, p))
            } else {
                None
            }
        },
        _ => None,
    };
    Ok(CcuRequest { url, authorization })
}

/// Reads the device-list answer: `<not_authenticated/>` in the body means
/// the XML-API wants credentials; anything else is parsed.
pub fn devicelist_response(body: &str) -> (r: Result<Vec<CcuDevice>, CcuError>)
    ensures
        contains_seq(trimmed(body@), "<not_authenticated/>"@) ==> r == Err::<Vec<CcuDevice>, CcuError>(
            CcuError::NotAuthenticated,
        ),
        !contains_seq(trimmed(body@), "<not_authenticated/>"@) ==> match xml_outline(body@) {
            None => r matches Err(CcuError::Xml(_)),
            Some((root, children)) => if root != "deviceList"@ {
                r matches Err(CcuError::UnexpectedRoot(n)) && n@ == root
            } else {
                r matches Ok(v) && ccu_views(v@) == devices_of(children)
            },
        },
{
    let t = trim_chars(chars_of(body).as_slice());
    if has_text(t.as_slice(), "<not_authenticated/>") {
        return Err(CcuError::NotAuthenticated);
    }
    parse_devicelist(body)
}

/// How device types are classified, read on the upper-cased type: the
/// first matching rule wins. Thermostats (`WTH`, `CC`); switches
/// (`LC-SW`, `-SW`, `-PS`); covers (`LC-BL`, `FROLL`, `BROLL`); dimmers
/// (`LC-DIM`); buttons (`-PB`, `-RC-`); sensors (`SEC`, `MOT`); else other.
/// The mapped device carries that kind, source `ccu`, the address as id,
/// the name (else the address), eQ-3 as maker and the type as model.
pub proof fn law_ccu_kind_rules(d: CcuDevice)
    ensures
        ({
            let t = ascii_upper(d.device_type@);
            let kind = ccu_device(d).5;
            let thermo = contains_seq(t, "WTH"@) || contains_seq(t, "CC"@);
            let switch = contains_seq(t, "LC-SW"@) || contains_seq(t, "-SW"@) || contains_seq(t, "-PS"@);
            let cover = contains_seq(t, "LC-BL"@) || contains_seq(t, "FROLL"@) || contains_seq(t, "BROLL"@);
            let dimmer = contains_seq(t, "LC-DIM"@);
            let button = contains_seq(t, "-PB"@) || contains_seq(t, "-RC-"@);
            let sensor = contains_seq(t, "SEC"@) || contains_seq(t, "MOT"@);
            &&& thermo ==> kind == Some("thermostat"@)
            &&& !thermo && switch ==> kind == Some("switch"@)
            &&& !thermo && !switch && cover ==> kind == Some("cover"@)
            &&& !thermo && !switch && !cover && dimmer ==> kind == Some("dimmer"@)
            &&& !thermo && !switch && !cover && !dimmer && button ==> kind == Some("button"@)
            &&& !thermo && !switch && !cover && !dimmer && !button && sensor ==> kind == Some("sensor"@)
            &&& !thermo && !switch && !cover && !dimmer && !button && !sensor ==> kind == Some("other"@)
            &&& ccu_device(d).0 == "ccu"@
            &&& ccu_device(d).1 == d.address@
            &&& d.name@.len() > 0 ==> ccu_device(d).2 == d.name@
            &&& d.name@.len() == 0 ==> ccu_device(d).2 == d.address@
            &&& ccu_device(d).3 == Some("eQ-3"@)
            &&& ccu_device(d).4 == Some(d.device_type@)
            &&& ccu_device(d).6 == None::<Seq<char>>
        }),
{
}

/// Two device types that differ only in ASCII case have the same kind.
pub proof fn law_ccu_kind_ignores_case(a: CcuDevice, b: CcuDevice)
    requires
        ascii_upper(a.device_type@) == ascii_upper(b.device_type@),
    ensures
        ccu_device(a).5 == ccu_device(b).5,
{
}

/// Mapping one more device: a virtual receiver (`-RCV-` in its type) adds
/// nothing; any other device adds exactly its own device, at the end.
pub proof fn law_ccu_map_appends(devices: Seq<CcuDevice>, d: CcuDevice)
    ensures
        contains_seq(d.device_type@, "-RCV-"@) ==> mapped_ccu(devices.push(d)) == mapped_ccu(devices),
        !contains_seq(d.device_type@, "-RCV-"@) ==> mapped_ccu(devices.push(d)) == mapped_ccu(devices).push(
            ccu_device(d),
        ),
{
    assert(devices.push(d).drop_last() =~= devices);
}

} // verus!
