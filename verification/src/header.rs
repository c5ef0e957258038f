//! The header block of one part: how it is written, and how a received
//! header line is read.
use vstd::prelude::*;
use vstd::slice::*;
use vstd::string::*;
use vstd::utf8::*;
use crate::body::text_of;
use crate::error::Error;
use crate::quoting::{QUOTE, escaped, unquote, unquoted};
use crate::scan::{
    after_prefix, eq_ignoring_case, find_byte, has_prefix, position, same_bytes,
    same_ignoring_case, skip_blanks, trim_start,
};
use crate::text::{bytes_of, decoded, optional_text, text_from_utf8, valid_text};

verus! {

/// The colon that ends a field name.
pub const COLON: u8 = 0x3a;

/// The equals sign between a parameter's key and its value.
pub const EQUALS: u8 = 0x3d;

/// The space behind the colon of a field name.
pub const SPACE: u8 = 0x20;

/// The field name of the disposition line, as it is written.
pub open spec fn disposition_label() -> Seq<u8> {
    "Content-Disposition".spec_bytes()
}

/// The field name of the media type line, as it is written.
pub open spec fn type_label() -> Seq<u8> {
    "Content-Type".spec_bytes()
}

/// What is written between a field name and its value.
pub open spec fn label_end() -> Seq<u8> {
    seq![COLON, SPACE]
}

/// The start of the one header line that every part carries:
/// `Content-Disposition: form-data`.
pub open spec fn disposition_head() -> Seq<u8> {
    disposition_label() + label_end() + form_data()
}

/// The start of the header line that gives the media type: `Content-Type: `.
pub open spec fn type_head() -> Seq<u8> {
    type_label() + label_end()
}

/// The field name of the disposition line, in lower case.
pub open spec fn disposition_field() -> Seq<u8> {
    "content-disposition".spec_bytes()
}

/// The field name of the media type line, in lower case.
pub open spec fn type_field() -> Seq<u8> {
    "content-type".spec_bytes()
}

/// The disposition type that a part of a form carries.
pub open spec fn form_data() -> Seq<u8> {
    "form-data".spec_bytes()
}

/// What stands in front of every parameter.
pub open spec fn param_sep() -> Seq<u8> {
    "; ".spec_bytes()
}

/// The key of the parameter that holds the field name.
pub open spec fn key_name() -> Seq<u8> {
    "name".spec_bytes()
}

/// The key of the parameter that holds the file name.
pub open spec fn key_file_name() -> Seq<u8> {
    "filename".spec_bytes()
}

/// One parameter as it is written: `; key="value"`, the value escaped.
pub open spec fn param(key: Seq<u8>, value: Seq<u8>) -> Seq<u8> {
    param_sep() + key + seq![EQUALS, QUOTE] + escaped(value) + seq![QUOTE]
}

/// The disposition line of a part, without its line ending.
pub open spec fn disposition_line(name: Seq<u8>, file_name: Option<Seq<u8>>) -> Seq<u8> {
    disposition_head() + param(key_name(), name) + match file_name {
        Some(f) => param(key_file_name(), f),
        None => Seq::empty(),
    }
}

/// The media type line of a part, without its line ending.
pub open spec fn type_line(content_type: Seq<u8>) -> Seq<u8> {
    type_head() + content_type
}

/// The parameters read from a disposition line.
pub struct DispositionView {
    /// The value of `name`, if the parameter was there.
    pub name: Option<Seq<u8>>,
    /// The value of `filename`, if the parameter was there.
    pub file_name: Option<Seq<u8>>,
}

/// `d` after the parameter `key` was read with `value`. Keys other than
/// `name` and `filename` change nothing.
pub open spec fn with_param(d: DispositionView, key: Seq<u8>, value: Seq<u8>) -> DispositionView {
    if key == key_name() {
        DispositionView { name: Some(value), ..d }
    } else if key == key_file_name() {
        DispositionView { file_name: Some(value), ..d }
    } else {
        d
    }
}

/// Reads the parameters in `s`, each written as `; key="value"`, on top of
/// those already in `acc`. `None` if `s` does not follow that syntax.
pub open spec fn params_of(s: Seq<u8>, acc: DispositionView) -> Option<DispositionView>
    decreases s.len(),
{
    if s.len() == 0 {
        Some(acc)
    } else if !has_prefix(s, param_sep()) {
        None
    } else {
        let r = s.skip(param_sep().len() as int);
        let eq = position(r, EQUALS);
        if eq + 1 >= r.len() || r[eq + 1] != QUOTE {
            None
        } else {
            match unquoted(r.skip(eq + 2)) {
                None => None,
                Some((value, rest)) => if rest.len() < s.len() {
                    params_of(rest, with_param(acc, r.take(eq), value))
                } else {
                    None
                },
            }
        }
    }
}

/// Reads the value of a disposition line: optional blanks, `form-data`, then
/// parameters. `None` if the value does not follow that syntax.
pub open spec fn disposition_of(value: Seq<u8>) -> Option<DispositionView> {
    let v = trim_start(value);
    if has_prefix(v, form_data()) {
        params_of(v.skip(form_data().len() as int), DispositionView { name: None, file_name: None })
    } else {
        None
    }
}

/// The header fields gathered for the part that is being read.
pub struct FieldsView {
    /// The field name, once a disposition line was read.
    pub name: Option<Seq<char>>,
    /// The file name, if a disposition line gave one.
    pub file_name: Option<Seq<char>>,
    /// The media type, if a line gave one.
    pub content_type: Option<Seq<char>>,
}

/// No field read yet.
pub open spec fn no_fields() -> FieldsView {
    FieldsView { name: None, file_name: None, content_type: None }
}

/// `f` after a disposition line with the parameters `d` was read.
pub open spec fn with_disposition(f: FieldsView, d: DispositionView) -> Result<FieldsView, Error> {
    if d.name is None || d.name->Some_0.len() == 0 {
        Err(Error::MissingName)
    } else if !valid_utf8(d.name->Some_0) || !valid_text(d.file_name) {
        Err(Error::MalformedHeader)
    } else {
        Ok(
            FieldsView {
                name: decoded(d.name),
                file_name: decoded(d.file_name),
                content_type: f.content_type,
            },
        )
    }
}

/// `f` after the header line `line` (without its line ending) was read.
///
/// A line without a colon, or with a field name other than
/// `Content-Disposition` and `Content-Type` (in any case), changes nothing.
pub open spec fn line_applied(f: FieldsView, line: Seq<u8>) -> Result<FieldsView, Error> {
    let p = position(line, COLON);
    if p >= line.len() {
        Ok(f)
    } else if same_ignoring_case(line.take(p), disposition_field()) {
        match disposition_of(line.skip(p + 1)) {
            None => Err(Error::MalformedHeader),
            Some(d) => with_disposition(f, d),
        }
    } else if same_ignoring_case(line.take(p), type_field()) {
        let v = trim_start(line.skip(p + 1));
        if valid_utf8(v) {
            Ok(FieldsView { content_type: Some(decode_utf8(v)), ..f })
        } else {
            Err(Error::MalformedHeader)
        }
    } else {
        Ok(f)
    }
}

/// The parameters read from a disposition line.
pub struct Disposition {
    /// The value of `name`, if the parameter was there.
    pub name: Option<Vec<u8>>,
    /// The value of `filename`, if the parameter was there.
    pub file_name: Option<Vec<u8>>,
}

impl View for Disposition {
    type V = DispositionView;

    open spec fn view(&self) -> DispositionView {
        DispositionView { name: bytes_of(self.name), file_name: bytes_of(self.file_name) }
    }
}

/// The header fields gathered for the part that is being read.
pub struct Fields {
    /// The field name, once a disposition line was read.
    pub name: Option<String>,
    /// The file name, if a disposition line gave one.
    pub file_name: Option<String>,
    /// The media type, if a line gave one.
    pub content_type: Option<String>,
}

impl View for Fields {
    type V = FieldsView;

    open spec fn view(&self) -> FieldsView {
        FieldsView {
            name: text_of(self.name),
            file_name: text_of(self.file_name),
            content_type: text_of(self.content_type),
        }
    }
}

impl Fields {
    /// No field read yet.
    pub fn new() -> (f: Fields)
        ensures
            f@ == no_fields(),
    {
        Fields { name: None, file_name: None, content_type: None }
    }
}

/// Reads the value of a disposition line.
pub fn parse_disposition(value: &[u8]) -> (r: Option<Disposition>)
    ensures
        r is Some <==> disposition_of(value@) is Some,
        r is Some ==> r->Some_0@ == disposition_of(value@)->Some_0,
{
    let start: usize = skip_blanks(value, 0);
    assert(value@.skip(0) =~= value@);
    let mut i: usize = match after_prefix(value, start, "form-data".as_bytes()) {
        Some(end) => end,
        None => {
            return None;
        },
    };
    let sep: &[u8] = "; ".as_bytes();
    let mut d = Disposition { name: None, file_name: None };
    assert(value@.skip(start as int).skip(form_data().len() as int) =~= value@.skip(i as int));
    while i < value.len()
        invariant
            i <= value.len(),
            sep@ == param_sep(),
            params_of(value@.skip(i as int), d@) == disposition_of(value@),
        decreases value.len() - i,
    {
        let ghost s = value@.skip(i as int);
        let k: usize = match after_prefix(value, i, sep) {
            Some(end) => end,
            None => {
                return None;
            },
        };
        let rest: &[u8] = slice_subrange(value, k, value.len());
        assert(rest@ =~= s.skip(param_sep().len() as int));
        let eq: usize = find_byte(rest, EQUALS);
        if rest.len() - eq < 2 || rest[eq + 1] != QUOTE {
            return None;
        }
        match unquote(rest, eq + 2) {
            None => {
                return None;
            },
            Some((val, end)) => {
                let key: &[u8] = slice_subrange(rest, 0, eq);
                assert(key@ =~= rest@.take(eq as int));
                assert(rest@.skip(end as int) =~= value@.skip(k + end));
                if same_bytes(key, "name".as_bytes()) {
                    d.name = Some(val);
                } else if same_bytes(key, "filename".as_bytes()) {
                    d.file_name = Some(val);
                }
                i = k + end;
            },
        }
    }
    assert(value@.skip(i as int).len() == 0);
    Some(d)
}

/// `fields` after a disposition line with the parameters `d` was read.
pub fn apply_disposition(fields: Fields, d: Disposition) -> (r: Result<Fields, Error>)
    ensures
        r is Ok <==> with_disposition(fields@, d@) is Ok,
        r is Ok ==> r->Ok_0@ == with_disposition(fields@, d@)->Ok_0,
        r is Err ==> r->Err_0 == with_disposition(fields@, d@)->Err_0,
{
    let Disposition { name, file_name } = d;
    match name {
        None => Err(Error::MissingName),
        Some(n) => {
            if n.len() == 0 {
                return Err(Error::MissingName);
            }
            match text_from_utf8(n) {
                None => Err(Error::MalformedHeader),
                Some(name_text) => match optional_text(file_name) {
                    None => Err(Error::MalformedHeader),
                    Some(file_text) => Ok(
                        Fields {
                            name: Some(name_text),
                            file_name: file_text,
                            content_type: fields.content_type,
                        },
                    ),
                },
            }
        },
    }
}

/// `fields` after the header line `line` (without its line ending) was read.
pub fn apply_line(fields: Fields, line: &[u8]) -> (r: Result<Fields, Error>)
    ensures
        r is Ok <==> line_applied(fields@, line@) is Ok,
        r is Ok ==> r->Ok_0@ == line_applied(fields@, line@)->Ok_0,
        r is Err ==> r->Err_0 == line_applied(fields@, line@)->Err_0,
{
    let p: usize = find_byte(line, COLON);
    if p >= line.len() {
        return Ok(fields);
    }
    let field: &[u8] = slice_subrange(line, 0, p);
    let value: &[u8] = slice_subrange(line, p + 1, line.len());
    assert(field@ =~= line@.take(p as int));
    assert(value@ =~= line@.skip(p + 1));
    if eq_ignoring_case(field, "content-disposition".as_bytes()) {
        match parse_disposition(value) {
            None => Err(Error::MalformedHeader),
            Some(d) => apply_disposition(fields, d),
        }
    } else if eq_ignoring_case(field, "content-type".as_bytes()) {
        let start: usize = skip_blanks(value, 0);
        assert(value@.skip(0) =~= value@);
        let mut v: Vec<u8> = Vec::new();
        v.extend_from_slice(slice_subrange(value, start, value.len()));
        assert(v@ =~= trim_start(value@));
        match text_from_utf8(v) {
            None => Err(Error::MalformedHeader),
            Some(t) => Ok(
                Fields { name: fields.name, file_name: fields.file_name, content_type: Some(t) },
            ),
        }
    } else {
        Ok(fields)
    }
}

} // verus!
