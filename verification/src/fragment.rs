//! One fragment file: locating its header and body by the delimiter lines,
//! decoding the header under the syntax the delimiter selects, and the
//! fragment value the rest of the crate works with.

use vstd::prelude::*;

use crate::bytes::{join_range, join_sep, pieces_view, split_bytes, split_sep};
use crate::error::FragmentError;
use std::collections::BTreeMap;

verus! {

/// The byte that separates the lines of a fragment file.
pub const NEWLINE: u8 = 10;

/// The two header syntaxes a fragment file may use, inferred from the
/// delimiter line that encloses the header: `+++` selects TOML, `---` YAML.
#[derive(Clone, Copy, Debug, PartialEq, Eq, Structural)]
pub enum HeaderSyntax {
    Toml,
    Yaml,
}

/// One value of a fragment's metadata header: the closed value space that a
/// header may carry.
#[derive(Clone, Debug, PartialEq)]
pub enum FragmentData {
    /// An absent value (YAML `null`); TOML cannot carry it.
    Empty,
    Bool(bool),
    Int(i64),
    Str(String),
}

/// The names of the kinds of [`FragmentData`].
#[derive(Clone, Copy, Debug, PartialEq, Eq, Structural)]
pub enum FragmentDataType {
    Bool,
    Int,
    Str,
}

/// The mathematical value of one [`FragmentData`].
pub ghost enum FragmentDataView {
    Empty,
    Bool(bool),
    Int(i64),
    Text(Seq<char>),
}

impl View for FragmentData {
    type V = FragmentDataView;

    open spec fn view(&self) -> FragmentDataView {
        match self {
            FragmentData::Empty => FragmentDataView::Empty,
            FragmentData::Bool(b) => FragmentDataView::Bool(*b),
            FragmentData::Int(i) => FragmentDataView::Int(*i),
            FragmentData::Str(s) => FragmentDataView::Text(s@),
        }
    }
}

/// The mathematical value of a decoded header: keys with their values, in
/// the order the decoder handed them out.
pub open spec fn header_view(v: Seq<(String, FragmentData)>) -> Seq<(Seq<char>, FragmentDataView)> {
    v.map_values(|p: (String, FragmentData)| (p.0@, p.1@))
}

/// The `+++` delimiter line.
pub open spec fn toml_marker() -> Seq<u8> {
    seq![43u8, 43u8, 43u8]
}

/// The `---` delimiter line.
pub open spec fn yaml_marker() -> Seq<u8> {
    seq![45u8, 45u8, 45u8]
}

pub open spec fn is_marker_line(l: Seq<u8>) -> bool {
    l == toml_marker() || l == yaml_marker()
}

pub open spec fn marker_syntax(l: Seq<u8>) -> HeaderSyntax {
    if l == toml_marker() {
        HeaderSyntax::Toml
    } else {
        HeaderSyntax::Yaml
    }
}

/// The index of the first delimiter line at or after `from`.
pub open spec fn find_marker(ls: Seq<Seq<u8>>, from: int) -> Option<int>
    decreases ls.len() - from,
{
    if from < 0 || from >= ls.len() {
        None
    } else if is_marker_line(ls[from]) {
        Some(from)
    } else {
        find_marker(ls, from + 1)
    }
}

proof fn lemma_find_marker_some(ls: Seq<Seq<u8>>, from: int, idx: int)
    requires
        0 <= from <= idx < ls.len(),
        forall|k: int| from <= k < idx ==> !is_marker_line(ls[k]),
        is_marker_line(ls[idx]),
    ensures
        find_marker(ls, from) == Some(idx),
    decreases idx - from,
{
    if from < idx {
        lemma_find_marker_some(ls, from + 1, idx);
    }
}

proof fn lemma_find_marker_none(ls: Seq<Seq<u8>>, from: int)
    requires
        0 <= from,
        forall|k: int| from <= k < ls.len() ==> !is_marker_line(ls[k]),
    ensures
        find_marker(ls, from) == Option::<int>::None,
    decreases ls.len() - from,
{
    if from < ls.len() {
        lemma_find_marker_none(ls, from + 1);
    }
}

/// What splitting a fragment's text into header and body yields.
pub ghost enum SplitSpec {
    /// No delimiter line exists anywhere in the text.
    Missing,
    /// An opening delimiter exists, but where its closing twin was expected
    /// stood `found`: a conflicting marker, or nothing (end of input).
    BadClose { found: Seq<u8> },
    /// The text between the two delimiter lines, and everything after the
    /// closing one, byte for byte.
    Split { syntax: HeaderSyntax, header: Seq<u8>, body: Seq<u8> },
}

/// Splits a fragment's text at its delimiter lines.
///
/// The first delimiter line (`+++` or `---`) opens the header and selects the
/// syntax; the next delimiter line must be of the same kind and closes it.
/// Everything after the closing delimiter's newline is the body, unchanged.
pub open spec fn split_spec(s: Seq<u8>) -> SplitSpec {
    let ls = split_sep(s, NEWLINE);
    match find_marker(ls, 0) {
        Option::None => SplitSpec::Missing,
        Option::Some(i) => match find_marker(ls, i + 1) {
            Option::None => SplitSpec::BadClose { found: Seq::empty() },
            Option::Some(j) => if ls[j] == ls[i] {
                SplitSpec::Split {
                    syntax: marker_syntax(ls[i]),
                    header: join_sep(ls.subrange(i + 1, j), NEWLINE),
                    body: join_sep(ls.subrange(j + 1, ls.len() as int), NEWLINE),
                }
            } else {
                SplitSpec::BadClose { found: ls[j] }
            },
        },
    }
}

/// If no line of the text is a delimiter line, splitting reports the
/// separator as missing.
pub proof fn lemma_no_marker_missing(s: Seq<u8>)
    requires
        forall|k: int|
            0 <= k < split_sep(s, NEWLINE).len() ==> !is_marker_line(split_sep(s, NEWLINE)[k]),
    ensures
        split_spec(s) is Missing,
{
    lemma_find_marker_none(split_sep(s, NEWLINE), 0);
}

/// Relates the text found where a closing delimiter was expected to the
/// `String` carried by the error: on valid UTF-8 they agree.
pub open spec fn found_text_matches(found: Seq<u8>, t: Seq<char>) -> bool {
    vstd::utf8::valid_utf8(found) ==> t == vstd::utf8::decode_utf8(found)
}

pub open spec fn split_parts_matches(
    s: Seq<u8>,
    r: Result<(HeaderSyntax, Vec<u8>, Vec<u8>), FragmentError>,
) -> bool {
    match split_spec(s) {
        SplitSpec::Missing => r matches Err(FragmentError::HeaderSeperatorMissing),
        SplitSpec::BadClose { found } => r matches Err(FragmentError::ExpectedSeperator(t))
            && found_text_matches(found, t@),
        SplitSpec::Split { syntax, header, body } => r matches Ok(p) && p.0 == syntax && p.1@
            == header && p.2@ == body,
    }
}

/// Recognizes a delimiter line and tells which syntax it selects.
fn marker_of(l: &Vec<u8>) -> (r: Option<HeaderSyntax>)
    ensures
        match r {
            Option::Some(sy) => is_marker_line(l@) && marker_syntax(l@) == sy,
            Option::None => !is_marker_line(l@),
        },
{
    if l.len() == 3 && l[0] == 43 && l[1] == 43 && l[2] == 43 {
        proof {
            assert(l@ =~= toml_marker());
        }
        Some(HeaderSyntax::Toml)
    } else if l.len() == 3 && l[0] == 45 && l[1] == 45 && l[2] == 45 {
        proof {
            assert(l@ =~= yaml_marker());
        }
        Some(HeaderSyntax::Yaml)
    } else {
        proof {
            assert(toml_marker().len() == 3);
            assert(yaml_marker().len() == 3);
        }
        None
    }
}

/// Finds the first delimiter line at or after `from`.
fn find_marker_from(lines: &Vec<Vec<u8>>, from: usize) -> (r: Option<(usize, HeaderSyntax)>)
    requires
        from <= lines@.len(),
    ensures
        ({
            let ls = pieces_view(lines@);
            match find_marker(ls, from as int) {
                Option::None => r is None,
                Option::Some(j) => r matches Some(p) && p.0 == j && from <= j < ls.len()
                    && is_marker_line(ls[j]) && marker_syntax(ls[j]) == p.1,
            }
        }),
{
    let ghost ls = pieces_view(lines@);
    let mut i: usize = from;
    while i < lines.len()
        invariant
            from <= i <= lines@.len(),
            ls == pieces_view(lines@),
            forall|k: int| from <= k < i ==> !is_marker_line(ls[k]),
        decreases lines@.len() - i,
    {
        match marker_of(&lines[i]) {
            Some(sy) => {
                proof {
                    lemma_find_marker_some(ls, from as int, i as int);
                }
                return Some((i, sy));
            },
            None => {},
        }
        i = i + 1;
    }
    proof {
        lemma_find_marker_none(ls, from as int);
    }
    None
}

/// Relies on `String::from_utf8_lossy`: on valid UTF-8 input it decodes the
/// bytes exactly; on invalid input it substitutes replacement characters.
#[verifier::external_body]
fn lossy_string(b: &Vec<u8>) -> (r: String)
    ensures
        vstd::utf8::valid_utf8(b@) ==> r@ == vstd::utf8::decode_utf8(b@),
{
    String::from_utf8_lossy(b.as_slice()).into_owned()
}

/// Relies on `String::from_utf8`: it succeeds exactly on valid UTF-8 and
/// then decodes the bytes.
#[verifier::external_body]
fn bytes_to_string(v: Vec<u8>) -> (r: Option<String>)
    ensures
        r is Some <==> vstd::utf8::valid_utf8(v@),
        r matches Some(s) ==> s@ == vstd::utf8::decode_utf8(v@),
{
    String::from_utf8(v).ok()
}

/// Locates the header and body of a fragment file's text.
pub fn split_parts(text: &[u8]) -> (r: Result<(HeaderSyntax, Vec<u8>, Vec<u8>), FragmentError>)
    ensures
        split_parts_matches(text@, r),
{
    let lines = split_bytes(text, NEWLINE);
    let n = lines.len();
    let ghost ls = pieces_view(lines@);
    match find_marker_from(&lines, 0) {
        None => Err(FragmentError::HeaderSeperatorMissing),
        Some((i, sy)) => match find_marker_from(&lines, i + 1) {
            None => {
                proof {
                    assert(vstd::utf8::valid_utf8(Seq::<u8>::empty()));
                    assert(vstd::utf8::decode_utf8(Seq::<u8>::empty()) =~= Seq::<char>::empty());
                }
                Err(FragmentError::ExpectedSeperator(String::new()))
            },
            Some((j, sy2)) => {
                if sy2 == sy {
                    proof {
                        assert(ls[j as int] == ls[i as int]);
                    }
                    let header = join_range(&lines, i + 1, j, NEWLINE);
                    let body = join_range(&lines, j + 1, lines.len(), NEWLINE);
                    Ok((sy, header, body))
                } else {
                    proof {
                        assert(ls[j as int] != ls[i as int]);
                    }
                    Err(FragmentError::ExpectedSeperator(lossy_string(&lines[j])))
                }
            },
        },
    }
}

/// What the TOML parser makes of a header's bytes: `None` where it (or the
/// UTF-8 decoding before it) refuses them, otherwise the decoded mapping.
pub uninterp spec fn toml_header_of(h: Seq<u8>) -> Option<Seq<(Seq<char>, FragmentDataView)>>;

/// What the YAML parser makes of a header's bytes, as [`toml_header_of`].
pub uninterp spec fn yaml_header_of(h: Seq<u8>) -> Option<Seq<(Seq<char>, FragmentDataView)>>;

/// The TOML text that a header mapping serializes to, `None` where the
/// mapping cannot be carried by TOML (an absent value).
pub uninterp spec fn toml_text_of(m: Seq<(Seq<char>, FragmentDataView)>) -> Option<Seq<char>>;

/// The YAML text that a header mapping serializes to.
pub uninterp spec fn yaml_text_of(m: Seq<(Seq<char>, FragmentDataView)>) -> Option<Seq<char>>;

/// Relies on `toml::from_str`: it decodes a TOML table from the header's
/// text, a function of the bytes alone. Keys come out sorted; values
/// outside the header's closed value space (floats, dates, arrays, tables)
/// are refused, as is text that is not valid UTF-8.
#[verifier::external_body]
fn decode_toml(h: &Vec<u8>) -> (r: Result<Vec<(String, FragmentData)>, String>)
    ensures
        r is Ok <==> toml_header_of(h@) is Some,
        r matches Ok(v) ==> toml_header_of(h@) matches Some(m) && header_view(v@) == m,
{
    let s = core::str::from_utf8(h.as_slice()).map_err(|e| e.to_string())?;
    let table: toml::Table = toml::from_str(s).map_err(|e| e.to_string())?;
    table.into_iter().map(|(k, v)| match v {
        toml::Value::Boolean(b) => Ok((k, FragmentData::Bool(b))),
        toml::Value::Integer(i) => Ok((k, FragmentData::Int(i))),
        toml::Value::String(s) => Ok((k, FragmentData::Str(s))),
        other => Err(other.type_str().to_string()),
    }).collect()
}

/// Relies on `serde_yaml::from_str`: it decodes a YAML mapping with string
/// keys from the header's text, a function of the bytes alone. Keys come out
/// sorted; `null` becomes the absent value; values outside the closed value
/// space are refused, as is text that is not valid UTF-8.
#[verifier::external_body]
fn decode_yaml(h: &Vec<u8>) -> (r: Result<Vec<(String, FragmentData)>, String>)
    ensures
        r is Ok <==> yaml_header_of(h@) is Some,
        r matches Ok(v) ==> yaml_header_of(h@) matches Some(m) && header_view(v@) == m,
{
    let s = core::str::from_utf8(h.as_slice()).map_err(|e| e.to_string())?;
    let map: BTreeMap<String, serde_yaml::Value> =
        serde_yaml::from_str(s).map_err(|e| e.to_string())?;
    map.into_iter().map(|(k, v)| match v {
        serde_yaml::Value::Null => Ok((k, FragmentData::Empty)),
        serde_yaml::Value::Bool(b) => Ok((k, FragmentData::Bool(b))),
        serde_yaml::Value::String(s) => Ok((k, FragmentData::Str(s))),
        serde_yaml::Value::Number(n) => n.as_i64().map(|i| (k, FragmentData::Int(i))).ok_or(
            "unsupported number".to_string(),
        ),
        _ => Err("unsupported value kind".to_string()),
    }).collect()
}

/// Relies on `toml::to_string`: it serializes a table built from the mapping,
/// a function of the mapping alone; an absent value is refused.
#[verifier::external_body]
fn encode_toml(m: &Vec<(String, FragmentData)>) -> (r: Result<String, String>)
    ensures
        r is Ok <==> toml_text_of(header_view(m@)) is Some,
        r matches Ok(s) ==> toml_text_of(header_view(m@)) matches Some(t) && s@ == t,
{
    let table = m.iter().map(|(k, v)| match v {
        FragmentData::Empty => Err(String::from("an absent value cannot be carried by TOML")),
        FragmentData::Bool(b) => Ok((k.clone(), toml::Value::Boolean(*b))),
        FragmentData::Int(i) => Ok((k.clone(), toml::Value::Integer(*i))),
        FragmentData::Str(s) => Ok((k.clone(), toml::Value::String(s.clone()))),
    }).collect::<Result<toml::Table, String>>()?;
    toml::to_string(&table).map_err(|e| e.to_string())
}

/// Relies on `serde_yaml::to_string`: it serializes a mapping built from the
/// header, a function of the mapping alone.
#[verifier::external_body]
fn encode_yaml(m: &Vec<(String, FragmentData)>) -> (r: Result<String, String>)
    ensures
        r is Ok <==> yaml_text_of(header_view(m@)) is Some,
        r matches Ok(s) ==> yaml_text_of(header_view(m@)) matches Some(t) && s@ == t,
{
    let mapping = m.iter().map(|(k, v)| (serde_yaml::Value::String(k.clone()), match v {
        FragmentData::Empty => serde_yaml::Value::Null,
        FragmentData::Bool(b) => serde_yaml::Value::Bool(*b),
        FragmentData::Int(i) => serde_yaml::Value::Number(serde_yaml::Number::from(*i)),
        FragmentData::Str(s) => serde_yaml::Value::String(s.clone()),
    })).collect::<serde_yaml::Mapping>();
    serde_yaml::to_string(&mapping).map_err(|e| e.to_string())
}

/// What decoding a header's bytes under the given syntax yields.
pub open spec fn header_of(syntax: HeaderSyntax, h: Seq<u8>) -> Option<
    Seq<(Seq<char>, FragmentDataView)>,
> {
    match syntax {
        HeaderSyntax::Toml => toml_header_of(h),
        HeaderSyntax::Yaml => yaml_header_of(h),
    }
}

pub open spec fn decode_header_matches(
    syntax: HeaderSyntax,
    h: Seq<u8>,
    r: Result<Vec<(String, FragmentData)>, FragmentError>,
) -> bool {
    match header_of(syntax, h) {
        Option::Some(m) => r matches Ok(v) && header_view(v@) == m,
        Option::None => match syntax {
            HeaderSyntax::Toml => r matches Err(FragmentError::TomlDe(_)),
            HeaderSyntax::Yaml => r matches Err(FragmentError::Yaml(_)),
        },
    }
}

/// Decodes a header's bytes with the syntax that its delimiter selected.
pub fn decode_header(syntax: HeaderSyntax, h: &Vec<u8>) -> (r: Result<
    Vec<(String, FragmentData)>,
    FragmentError,
>)
    ensures
        decode_header_matches(syntax, h@, r),
{
    match syntax {
        HeaderSyntax::Toml => match decode_toml(h) {
            Ok(v) => Ok(v),
            Err(e) => Err(FragmentError::TomlDe(e)),
        },
        HeaderSyntax::Yaml => match decode_yaml(h) {
            Ok(v) => Ok(v),
            Err(e) => Err(FragmentError::Yaml(e)),
        },
    }
}

pub open spec fn encode_header_matches(
    syntax: HeaderSyntax,
    m: Seq<(Seq<char>, FragmentDataView)>,
    r: Result<String, FragmentError>,
) -> bool {
    let t = match syntax {
        HeaderSyntax::Toml => toml_text_of(m),
        HeaderSyntax::Yaml => yaml_text_of(m),
    };
    match t {
        Option::Some(s) => r matches Ok(o) && o@ == s,
        Option::None => match syntax {
            HeaderSyntax::Toml => r matches Err(FragmentError::TomlSer(_)),
            HeaderSyntax::Yaml => r matches Err(FragmentError::Yaml(_)),
        },
    }
}

/// Serializes a header mapping back to text in the given syntax.
pub fn encode_header(syntax: HeaderSyntax, m: &Vec<(String, FragmentData)>) -> (r: Result<
    String,
    FragmentError,
>)
    ensures
        encode_header_matches(syntax, header_view(m@), r),
{
    match syntax {
        HeaderSyntax::Toml => match encode_toml(m) {
            Ok(s) => Ok(s),
            Err(e) => Err(FragmentError::TomlSer(e)),
        },
        HeaderSyntax::Yaml => match encode_yaml(m) {
            Ok(s) => Ok(s),
            Err(e) => Err(FragmentError::Yaml(e)),
        },
    }
}

/// One decoded fragment file: its metadata header and its body, independent
/// of the syntax the header was written in.
#[derive(Clone, Debug, PartialEq)]
pub struct Fragment {
    /// The decoded header mapping, keys with their values.
    pub header: Vec<(String, FragmentData)>,
    /// The free-text body, verbatim.
    pub body: String,
}

/// The mathematical value of a [`Fragment`].
pub ghost struct FragmentView {
    pub header: Seq<(Seq<char>, FragmentDataView)>,
    pub body: Seq<char>,
}

impl View for Fragment {
    type V = FragmentView;

    open spec fn view(&self) -> FragmentView {
        FragmentView { header: header_view(self.header@), body: self.body@ }
    }
}

impl Fragment {
    pub fn new(header: Vec<(String, FragmentData)>, body: String) -> (r: Fragment)
        ensures
            r@.header == header_view(header@),
            r@.body == body@,
    {
        Fragment { header, body }
    }
}

/// What decoding a whole fragment file yields, for every input.
///
/// The split of the text decides everything: a structural failure is
/// reported as such; then the header must decode under the syntax the
/// delimiter selected; then the body must be valid UTF-8, and is kept
/// unchanged.
pub open spec fn fragment_res_matches(bytes: Seq<u8>, r: Result<Fragment, FragmentError>) -> bool {
    match split_spec(bytes) {
        SplitSpec::Missing => r matches Err(FragmentError::HeaderSeperatorMissing),
        SplitSpec::BadClose { found } => r matches Err(FragmentError::ExpectedSeperator(t))
            && found_text_matches(found, t@),
        SplitSpec::Split { syntax, header, body } => match header_of(syntax, header) {
            Option::None => match syntax {
                HeaderSyntax::Toml => r matches Err(FragmentError::TomlDe(_)),
                HeaderSyntax::Yaml => r matches Err(FragmentError::Yaml(_)),
            },
            Option::Some(m) => if vstd::utf8::valid_utf8(body) {
                r matches Ok(f) && f@.header == m && f@.body == vstd::utf8::decode_utf8(body)
            } else {
                r matches Err(FragmentError::Io(_))
            },
        },
    }
}

impl Fragment {
    /// Decodes one fragment file from its full text: splits it at its
    /// delimiter lines, decodes the header under the syntax the delimiter
    /// selected, and keeps the body verbatim.
    pub fn from_bytes(bytes: &[u8]) -> (r: Result<Fragment, FragmentError>)
        ensures
            fragment_res_matches(bytes@, r),
    {
        let (syntax, header, body) = match split_parts(bytes) {
            Ok(p) => p,
            Err(e) => return Err(e),
        };
        let hdr = match decode_header(syntax, &header) {
            Ok(h) => h,
            Err(e) => return Err(e),
        };
        let body_s = match bytes_to_string(body) {
            Some(s) => s,
            None => return Err(FragmentError::Io("the body is not valid UTF-8".to_owned())),
        };
        Ok(Fragment::new(hdr, body_s))
    }
}

} // verus!
