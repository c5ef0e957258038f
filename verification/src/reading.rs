//! A header line that was written by this library is read back as what it
//! was written from.
use vstd::prelude::*;
use vstd::string::*;
use vstd::utf8::*;
use crate::header::{
    COLON, DispositionView, EQUALS, FieldsView, SPACE, disposition_field, disposition_label,
    disposition_line, disposition_of, form_data, key_file_name, key_name, label_end,
    line_applied, param, param_sep, params_of, type_field, type_label, type_line, with_param,
};
use crate::quoting::{
    QUOTE, escaped, header_safe, is_control, lemma_escaped_safe, lemma_unquoted_escaped,
};
use crate::scan::{is_blank, lemma_first_unique, same_ignoring_case, trim_start};
use crate::text::{decoded, valid_text};

verus! {

/// What the proofs below need to know of the words of a header line.
pub proof fn lemma_words()
    ensures
        header_safe(disposition_label()),
        header_safe(type_label()),
        header_safe(form_data()),
        header_safe(param_sep()),
        header_safe(key_name()),
        header_safe(key_file_name()),
        disposition_label().len() == 19,
        type_label().len() == 12,
        forall|i: int| 0 <= i < 19 ==> #[trigger] disposition_label()[i] != COLON,
        forall|i: int| 0 <= i < 12 ==> #[trigger] type_label()[i] != COLON,
        same_ignoring_case(disposition_label(), disposition_field()),
        same_ignoring_case(type_label(), type_field()),
        form_data().len() == 9,
        !is_blank(form_data()[0]),
        key_name().len() == 4,
        key_file_name().len() == 8,
        forall|i: int| 0 <= i < 4 ==> #[trigger] key_name()[i] != EQUALS,
        forall|i: int| 0 <= i < 8 ==> #[trigger] key_file_name()[i] != EQUALS,
{
    broadcast use vstd::string::is_ascii_spec_bytes;

    reveal_strlit("Content-Disposition");
    reveal_strlit("Content-Type");
    reveal_strlit("content-disposition");
    reveal_strlit("content-type");
    reveal_strlit("form-data");
    reveal_strlit("; ");
    reveal_strlit("name");
    reveal_strlit("filename");
    assert(is_ascii("Content-Disposition"));
    assert(is_ascii("Content-Type"));
    assert(is_ascii("content-disposition"));
    assert(is_ascii("content-type"));
    assert(is_ascii("form-data"));
    assert(is_ascii("; "));
    assert(is_ascii("name"));
    assert(is_ascii("filename"));
}

/// Two runs of bytes without control characters give one when joined.
pub proof fn lemma_safe_concat(a: Seq<u8>, b: Seq<u8>)
    requires
        header_safe(a),
        header_safe(b),
    ensures
        header_safe(a + b),
{
    assert forall|i: int| 0 <= i < (a + b).len() implies !is_control(#[trigger] (a + b)[i]) by {
        if i < a.len() {
            assert((a + b)[i] == a[i]);
        } else {
            assert((a + b)[i] == b[i - a.len()]);
        }
    }
}

/// A parameter whose key and value hold no control character holds none.
pub proof fn lemma_param_safe(key: Seq<u8>, value: Seq<u8>)
    requires
        header_safe(key),
        header_safe(value),
    ensures
        header_safe(param(key, value)),
{
    lemma_words();
    lemma_escaped_safe(value);
    lemma_safe_concat(param_sep(), key);
    lemma_safe_concat(param_sep() + key, seq![EQUALS, QUOTE]);
    lemma_safe_concat(param_sep() + key + seq![EQUALS, QUOTE], escaped(value));
    lemma_safe_concat(param_sep() + key + seq![EQUALS, QUOTE] + escaped(value), seq![QUOTE]);
}

/// The disposition line of a name and a file name without control
/// characters is not empty and holds no control character, so no line feed.
pub proof fn lemma_disposition_line_safe(name: Seq<u8>, file_name: Option<Seq<u8>>)
    requires
        header_safe(name),
        file_name is Some ==> header_safe(file_name->Some_0),
    ensures
        header_safe(disposition_line(name, file_name)),
        disposition_line(name, file_name).len() > 0,
{
    lemma_words();
    lemma_safe_concat(disposition_label(), label_end());
    lemma_safe_concat(disposition_label() + label_end(), form_data());
    lemma_param_safe(key_name(), name);
    let head = disposition_label() + label_end() + form_data();
    lemma_safe_concat(head, param(key_name(), name));
    match file_name {
        Some(f) => {
            lemma_param_safe(key_file_name(), f);
            lemma_safe_concat(head + param(key_name(), name), param(key_file_name(), f));
        },
        None => {
            assert(head + param(key_name(), name) + Seq::<u8>::empty() =~= head + param(
                key_name(),
                name,
            ));
        },
    }
}

/// The media type line of a media type without control characters is not
/// empty and holds no control character, so no line feed.
pub proof fn lemma_type_line_safe(content_type: Seq<u8>)
    requires
        header_safe(content_type),
    ensures
        header_safe(type_line(content_type)),
        type_line(content_type).len() > 0,
{
    lemma_words();
    lemma_safe_concat(type_label(), label_end());
    lemma_safe_concat(type_label() + label_end(), content_type);
}

/// A written parameter, whatever follows it, is read as its key and value,
/// and reading goes on with what follows.
pub proof fn lemma_param_read(key: Seq<u8>, value: Seq<u8>, rest: Seq<u8>, acc: DispositionView)
    requires
        forall|i: int| 0 <= i < key.len() ==> #[trigger] key[i] != EQUALS,
    ensures
        params_of(param(key, value) + rest, acc) == params_of(rest, with_param(acc, key, value)),
{
    let s = param(key, value) + rest;
    let sep = param_sep();
    assert(s.take(sep.len() as int) =~= sep);
    let r = s.skip(sep.len() as int);
    assert(r =~= key + seq![EQUALS, QUOTE] + escaped(value) + seq![QUOTE] + rest);
    let eq = key.len() as int;
    assert(r[eq] == EQUALS);
    assert forall|i: int| 0 <= i < eq implies #[trigger] r[i] != EQUALS by {
        assert(r[i] == key[i]);
    }
    lemma_first_unique(r, EQUALS, eq);
    assert(r[eq + 1] == QUOTE);
    assert(r.skip(eq + 2) =~= escaped(value) + seq![QUOTE] + rest);
    lemma_unquoted_escaped(value, rest);
    assert(r.take(eq) =~= key);
}

/// The disposition line written for a name and an optional file name is read
/// back as that name and that file name, whatever bytes they hold.
pub proof fn lemma_disposition_line_read(
    f: FieldsView,
    name: Seq<u8>,
    file_name: Option<Seq<u8>>,
)
    requires
        name.len() > 0,
        valid_utf8(name),
        valid_text(file_name),
    ensures
        line_applied(f, disposition_line(name, file_name)) == Ok::<FieldsView, crate::error::Error>(
            FieldsView {
                name: Some(decode_utf8(name)),
                file_name: decoded(file_name),
                content_type: f.content_type,
            },
        ),
{
    lemma_words();
    let label = disposition_label();
    let tail = match file_name {
        Some(v) => param(key_file_name(), v),
        None => Seq::empty(),
    };
    let params = param(key_name(), name) + tail;
    let line = disposition_line(name, file_name);
    assert(line =~= label + label_end() + form_data() + params);
    let p = label.len() as int;
    assert(line[p] == COLON);
    assert forall|i: int| 0 <= i < p implies #[trigger] line[i] != COLON by {
        assert(line[i] == label[i]);
    }
    lemma_first_unique(line, COLON, p);
    assert(line.take(p) =~= label);
    let value = line.skip(p + 1);
    let v = form_data() + params;
    assert(value =~= seq![SPACE] + v);
    assert(trim_start(value) == v) by {
        reveal_with_fuel(trim_start, 2);
        assert(value.skip(1) =~= v);
        assert(v[0] == form_data()[0]);
    }
    assert(v.take(form_data().len() as int) =~= form_data());
    assert(v.skip(form_data().len() as int) =~= params);
    let none = DispositionView { name: None, file_name: None };
    lemma_param_read(key_name(), name, tail, none);
    let first = with_param(none, key_name(), name);
    match file_name {
        Some(w) => {
            assert(tail =~= param(key_file_name(), w) + Seq::<u8>::empty());
            lemma_param_read(key_file_name(), w, Seq::empty(), first);
        },
        None => {},
    }
    assert(disposition_of(value) == Some(DispositionView { name: Some(name), file_name }));
}

/// The media type line written for a media type that does not start with a
/// blank is read back as that media type.
pub proof fn lemma_type_line_read(f: FieldsView, content_type: Seq<u8>)
    requires
        valid_utf8(content_type),
        content_type.len() > 0 ==> !is_blank(content_type[0]),
    ensures
        line_applied(f, type_line(content_type)) == Ok::<FieldsView, crate::error::Error>(
            FieldsView { content_type: Some(decode_utf8(content_type)), ..f },
        ),
{
    lemma_words();
    let label = type_label();
    let line = type_line(content_type);
    assert(line =~= label + label_end() + content_type);
    let p = label.len() as int;
    assert(line[p] == COLON);
    assert forall|i: int| 0 <= i < p implies #[trigger] line[i] != COLON by {
        assert(line[i] == label[i]);
    }
    lemma_first_unique(line, COLON, p);
    assert(line.take(p) =~= label);
    let value = line.skip(p + 1);
    assert(value =~= seq![SPACE] + content_type);
    assert(trim_start(value) == content_type) by {
        reveal_with_fuel(trim_start, 2);
        assert(value.skip(1) =~= content_type);
    }
    assert(!same_ignoring_case(label, disposition_field())) by {
        reveal_strlit("content-disposition");
        broadcast use vstd::string::is_ascii_spec_bytes;
        assert(is_ascii("content-disposition"));
    }
}

} // verus!
