//! XML tokens as read by `quick_xml`, and the helpers that read tag names
//! and attributes out of them.
use vstd::prelude::*;
use vstd::utf8::*;
use vstd::string::*;
use quick_xml::events::attributes::Attributes;
use quick_xml::events::Event;
use quick_xml::Reader;
use crate::strings::bytes_eq;

verus! {

broadcast use vstd::utf8::group_utf8_lib;

/// One event of an XML document, owned.
#[derive(Debug, Clone)]
pub enum XmlToken {
    /// An opening tag; holds the text between `<` and `>`: the name, then the attributes.
    Start(String),
    /// A self-closing tag; holds the text between `<` and `/>`.
    Empty(String),
    /// A closing tag.
    End,
    /// Character data, with entities unescaped (`None` where unescaping failed).
    Text(Option<String>),
    /// Any other event (comment, declaration, CDATA, ...).
    Other,
    /// The end of the document.
    Eof,
    /// A syntax error; nothing after it is read.
    Error,
}

/// The mathematical value of an [`XmlToken`].
pub enum TokenModel {
    Start(Seq<char>),
    Empty(Seq<char>),
    End,
    Text(Option<Seq<char>>),
    Other,
    Eof,
    Error,
}

impl View for XmlToken {
    type V = TokenModel;

    open spec fn view(&self) -> TokenModel {
        match self {
            XmlToken::Start(c) => TokenModel::Start(c@),
            XmlToken::Empty(c) => TokenModel::Empty(c@),
            XmlToken::End => TokenModel::End,
            XmlToken::Text(t) => TokenModel::Text(
                match t {
                    Some(s) => Some(s@),
                    None => None,
                },
            ),
            XmlToken::Other => TokenModel::Other,
            XmlToken::Eof => TokenModel::Eof,
            XmlToken::Error => TokenModel::Error,
        }
    }
}

/// The views of a sequence of tokens.
pub open spec fn tokens_view(ts: Seq<XmlToken>) -> Seq<TokenModel> {
    ts.map_values(|t: XmlToken| t@)
}

/// One attribute of a tag: its qualified key and its raw (unescaped) value bytes.
#[derive(Debug, Clone)]
pub struct XmlAttr {
    pub key: Vec<u8>,
    pub value: Vec<u8>,
}

/// The mathematical value of an [`XmlAttr`].
pub struct AttrModel {
    pub key: Seq<u8>,
    pub value: Seq<u8>,
}

impl View for XmlAttr {
    type V = AttrModel;

    open spec fn view(&self) -> AttrModel {
        AttrModel { key: self.key@, value: self.value@ }
    }
}

/// The events that `quick_xml`'s reader (default configuration) yields for a
/// document, up to but not including the end of input; a syntax error is the
/// last event.
pub uninterp spec fn xml_tokens(xml: Seq<char>) -> Seq<TokenModel>;

/// The well-formed attributes that `quick_xml` finds in a tag's content after
/// the name (ill-formed ones are skipped).
pub uninterp spec fn xml_tag_attributes(content: Seq<char>, name_len: usize) -> Seq<AttrModel>;

/// Reads a whole document with `quick_xml::Reader::read_event`, converting each
/// event to an owned token. Claimed: the result is `xml_tokens(xml@)`, a function
/// of the text alone; reading stops at the end of input (not recorded) or after
/// the first error (recorded as [`XmlToken::Error`]).
#[verifier::external_body]
pub(crate) fn xml_tokenize(xml: &str) -> (toks: Vec<XmlToken>)
    ensures
        tokens_view(toks@) == xml_tokens(xml@),
{
    let mut reader = Reader::from_str(xml);
    let mut toks = Vec::new();
    loop {
        let tok = match reader.read_event() {
            Ok(Event::Start(e)) => XmlToken::Start(String::from_utf8_lossy(&e).into_owned()),
            Ok(Event::Empty(e)) => XmlToken::Empty(String::from_utf8_lossy(&e).into_owned()),
            Ok(Event::End(_)) => XmlToken::End,
            Ok(Event::Text(t)) => XmlToken::Text(t.unescape().ok().map(|c| c.into_owned())),
            Ok(Event::Eof) => return toks,
            Ok(_) => XmlToken::Other,
            Err(_) => { toks.push(XmlToken::Error); return toks; }
        };
        toks.push(tok);
    }
}

/// The attributes of a tag, with `quick_xml::events::attributes::Attributes::new`
/// over its content from the end of its name (as `BytesStart::attributes` does),
/// skipping ill-formed ones. Claimed: the result is `xml_tag_attributes(content@, name_len)`.
#[verifier::external_body]
pub(crate) fn xml_attributes(content: &str, name_len: usize) -> (attrs: Vec<XmlAttr>)
    requires
        name_len <= content.spec_bytes().len(),
    ensures
        attrs@.map_values(|a: XmlAttr| a@) == xml_tag_attributes(content@, name_len),
{
    Attributes::new(content, name_len)
        .flatten()
        .map(|a| XmlAttr { key: a.key.as_ref().to_vec(), value: a.value.to_vec() })
        .collect()
}

/// XML whitespace: blank, carriage return, line feed, tab.
pub open spec fn is_xml_space(b: u8) -> bool {
    b == 32 || b == 13 || b == 10 || b == 9
}

/// The length of a tag's name: its content up to the first XML whitespace.
pub open spec fn name_len(b: Seq<u8>) -> nat
    decreases b.len(),
{
    if b.len() == 0 || is_xml_space(b[0]) {
        0
    } else {
        1 + name_len(b.drop_first())
    }
}

/// The position of the first `:` in a name, if any.
pub open spec fn first_colon(b: Seq<u8>) -> Option<nat>
    decreases b.len(),
{
    if b.len() == 0 {
        None
    } else if b[0] == 58 {
        Some(0)
    } else {
        match first_colon(b.drop_first()) {
            Some(i) => Some(i + 1),
            None => None,
        }
    }
}

/// The local part of a qualified name: what follows the first `:`, or the whole name.
pub open spec fn local_part(name: Seq<u8>) -> Seq<u8> {
    match first_colon(name) {
        Some(i) => name.skip(i + 1int),
        None => name,
    }
}

/// The bytes of a tag's content.
pub open spec fn content_bytes(content: Seq<char>) -> Seq<u8> {
    encode_utf8(content)
}

/// The local name of a tag, given its content.
pub open spec fn tag_local(content: Seq<char>) -> Seq<u8> {
    let b = content_bytes(content);
    local_part(b.take(name_len(b) as int))
}

/// Whether a tag's local name is `name`.
pub open spec fn named(content: Seq<char>, name: Seq<char>) -> bool {
    tag_local(content) == encode_utf8(name)
}

/// The attributes of a tag, given its content.
pub open spec fn tag_attrs(content: Seq<char>) -> Seq<AttrModel> {
    xml_tag_attributes(content, name_len(content_bytes(content)) as usize)
}

/// Whether an attribute's qualified key is `key`.
pub open spec fn key_is(a: AttrModel, key: Seq<char>) -> bool {
    a.key == encode_utf8(key)
}

proof fn lemma_name_len_bound(b: Seq<u8>)
    ensures
        name_len(b) <= b.len(),
        forall|k: int| 0 <= k < name_len(b) ==> !is_xml_space(#[trigger] b[k]),
        name_len(b) < b.len() ==> is_xml_space(b[name_len(b) as int]),
    decreases b.len(),
{
    if b.len() > 0 && !is_xml_space(b[0]) {
        lemma_name_len_bound(b.drop_first());
        assert forall|k: int| 0 <= k < name_len(b) implies !is_xml_space(#[trigger] b[k]) by {
            if k > 0 {
                assert(b[k] == b.drop_first()[k - 1]);
            }
        }
    }
}

proof fn lemma_name_len_prefix(b: Seq<u8>, n: int)
    requires
        0 <= n <= b.len(),
        forall|k: int| 0 <= k < n ==> !is_xml_space(#[trigger] b[k]),
        n == b.len() || is_xml_space(b[n]),
    ensures
        name_len(b) == n,
    decreases b.len(),
{
    if n > 0 {
        assert forall|k: int| 0 <= k < n - 1 implies !is_xml_space(#[trigger] b.drop_first()[k]) by {
            assert(b.drop_first()[k] == b[k + 1]);
        }
        if n < b.len() {
            assert(b.drop_first()[n - 1] == b[n]);
        }
        lemma_name_len_prefix(b.drop_first(), n - 1);
    }
}

proof fn lemma_first_colon(b: Seq<u8>, n: int)
    requires
        0 <= n <= b.len(),
        forall|k: int| 0 <= k < n ==> #[trigger] b[k] != 58,
        n == b.len() || b[n] == 58,
    ensures
        first_colon(b) == (if n == b.len() { None } else { Some(n as nat) }),
    decreases b.len(),
{
    if n > 0 {
        assert forall|k: int| 0 <= k < n - 1 implies #[trigger] b.drop_first()[k] != 58 by {
            assert(b.drop_first()[k] == b[k + 1]);
        }
        if n < b.len() {
            assert(b.drop_first()[n - 1] == b[n]);
        }
        lemma_first_colon(b.drop_first(), n - 1);
    }
}

/// The length of a tag's name, in bytes of its content.
pub fn tag_name_len(content: &str) -> (n: usize)
    ensures
        n == name_len(content_bytes(content@)),
        n <= content_bytes(content@).len(),
{
    let b = content.as_bytes();
    let mut i: usize = 0;
    while i < b.len() && !(b[i] == 32 || b[i] == 13 || b[i] == 10 || b[i] == 9)
        invariant
            i <= b@.len(),
            forall|k: int| 0 <= k < i ==> !is_xml_space(#[trigger] b@[k]),
        decreases b@.len() - i,
    {
        i = i + 1;
    }
    proof {
        lemma_name_len_prefix(b@, i as int);
    }
    i
}

/// Whether the local part of the name `b[..end]` equals `want`.
fn local_eq(b: &[u8], end: usize, want: &[u8]) -> (r: bool)
    requires
        end <= b@.len(),
    ensures
        r == (local_part(b@.take(end as int)) == want@),
{
    let ghost nm = b@.take(end as int);
    let mut c: usize = 0;
    while c < end && b[c] != 58
        invariant
            end <= b@.len(),
            c <= end,
            forall|k: int| 0 <= k < c ==> #[trigger] b@[k] != 58,
        decreases end - c,
    {
        c = c + 1;
    }
    proof {
        assert forall|k: int| 0 <= k < c implies #[trigger] nm[k] != 58 by {
            assert(nm[k] == b@[k]);
        }
        lemma_first_colon(nm, c as int);
    }
    let start: usize = if c < end { c + 1 } else { 0 };
    assert(local_part(nm) =~= nm.skip(start as int));
    if end - start != want.len() {
        return false;
    }
    let mut k: usize = 0;
    while k < want.len()
        invariant
            start + want@.len() == end,
            end <= b@.len(),
            nm == b@.take(end as int),
            local_part(nm) == nm.skip(start as int),
            k <= want@.len(),
            forall|j: int| 0 <= j < k ==> local_part(nm)[j] == want@[j],
        decreases want@.len() - k,
    {
        if b[start + k] != want[k] {
            proof {
                assert(local_part(nm)[k as int] == b@[start + k]);
            }
            return false;
        }
        k = k + 1;
    }
    proof {
        assert(local_part(nm) =~= want@);
    }
    true
}

/// Whether a tag (given its content) has the local name `name`.
pub fn tag_is(content: &str, name: &str) -> (r: bool)
    ensures
        r == named(content@, name@),
{
    let n = tag_name_len(content);
    local_eq(content.as_bytes(), n, name.as_bytes())
}

/// The views of a sequence of attributes.
pub open spec fn attrs_view(v: Seq<XmlAttr>) -> Seq<AttrModel> {
    v.map_values(|a: XmlAttr| a@)
}

/// The attributes of a tag, given its content.
pub fn tag_attributes(content: &str) -> (attrs: Vec<XmlAttr>)
    ensures
        attrs_view(attrs@) == tag_attrs(content@),
{
    let n = tag_name_len(content);
    xml_attributes(content, n)
}

/// Whether an attribute's qualified key is `key`.
pub fn attr_key_is(a: &XmlAttr, key: &str) -> (r: bool)
    ensures
        r == key_is(a@, key@),
{
    bytes_eq(a.key.as_slice(), key.as_bytes())
}

/// Whether an attribute's local key (after the first `:`) is `key`.
pub fn attr_local_key_is(a: &XmlAttr, key: &str) -> (r: bool)
    ensures
        r == (local_part(a@.key) == encode_utf8(key@)),
{
    let b = a.key.as_slice();
    assert(b@.take(b@.len() as int) =~= b@);
    local_eq(b, b.len(), key.as_bytes())
}

} // verus!
