//! Reading gives back what was written: a request text that is made of a
//! method, a path, a version, header fields and a body is read as exactly
//! those.

use crate::chars::{is_blank, lower, lower_char, lower_name, same_name};
use crate::headers::{has_name, header_block, lemma_with_field_value, value_of, Field};
use crate::request::{
    body_of, endpoint_token, field_of, fields_of, gathered, header_lines, is_field_line,
    lemma_field_lines, lemma_lowered, lines_of, lowered, method_of, method_token, parsed,
    RequestError, RequestView,
};
use crate::text::{
    blank_line, colon_space, crlf, joined, lemma_concat_free, lemma_find_after, lemma_find_none,
    lemma_joined_push, lemma_pieces_joined, lemma_short_after, occurs, occurs_at, pieces,
    replaced, space,
};
use vstd::prelude::*;

verus! {

/// The request line: method, path and version with one space between them.
pub open spec fn request_line(method: Seq<char>, path: Seq<char>, version: Seq<char>) -> Seq<
    char,
> {
    method + space() + path + space() + version
}

/// The text of a request: the request line, a line for each header field,
/// a blank line, and the body.
pub open spec fn request_text(
    method: Seq<char>,
    path: Seq<char>,
    version: Seq<char>,
    fields: Seq<Field>,
    body: Seq<char>,
) -> Seq<char> {
    request_line(method, path, version) + crlf() + header_block(fields) + crlf() + body
}

/// A field that one line can carry: its name holds no colon followed by a
/// space, and neither its name nor its value holds a line terminator.
pub open spec fn is_plain_field(field: Field) -> bool {
    &&& !occurs(field.0, colon_space())
    &&& !occurs(field.0, crlf())
    &&& !occurs(field.1, crlf())
}

/// The line of a header field, without its line terminator.
spec fn field_text(field: Field) -> Seq<char> {
    field.0 + colon_space() + field.1
}

/// The lines of the header fields, without their line terminators.
spec fn field_texts(fields: Seq<Field>) -> Seq<Seq<char>> {
    Seq::new(fields.len(), |i: int| field_text(fields[i]))
}

/// How a blank line begins: a line terminator and a carriage return.
spec fn opening() -> Seq<char> {
    seq!['\r', '\n', '\r']
}

/// The request line and the header lines, each with its line terminator,
/// are those lines joined, with one more line terminator behind them.
proof fn lemma_head(first: Seq<char>, fields: Seq<Field>)
    ensures
        first + crlf() + header_block(fields) == joined(
            seq![first] + field_texts(fields),
            crlf(),
        ) + crlf(),
    decreases fields.len(),
{
    if fields.len() == 0 {
        assert(seq![first] + field_texts(fields) =~= seq![first]);
        assert(first + crlf() + header_block(fields) =~= first + crlf());
    } else {
        let front = fields.drop_last();
        lemma_head(first, front);
        let parts = seq![first] + field_texts(front);
        let last = field_text(fields.last());
        assert(seq![first] + field_texts(fields) =~= parts.push(last));
        lemma_joined_push(parts, crlf(), last);
        assert(header_block(fields) =~= header_block(front) + last + crlf());
        assert(first + crlf() + header_block(fields) =~= (first + crlf() + header_block(front))
            + last + crlf());
        assert(joined(parts.push(last), crlf()) + crlf() =~= (joined(parts, crlf()) + crlf())
            + last + crlf());
    }
}

/// A text that holds nowhere the first character of a pattern does not
/// hold the pattern.
proof fn lemma_without_first(s: Seq<char>, p: Seq<char>)
    requires
        p.len() > 0,
        forall|i: int| 0 <= i < s.len() ==> s[i] != p[0],
    ensures
        !occurs(s, p),
{
    assert forall|j: int| !occurs_at(s, p, j) by {
        if occurs_at(s, p, j) {
            assert(s.subrange(j, j + p.len())[0] == p[0]);
        }
    }
}

/// A line that holds no line terminator, with the opening of a blank line
/// behind it, holds no blank line.
proof fn lemma_line_opens_no_blank_line(line: Seq<char>)
    requires
        line.len() > 0,
        !occurs(line, crlf()),
    ensures
        !occurs(line + opening(), blank_line()),
{
    let t = line + opening();
    assert forall|j: int| !occurs_at(t, blank_line(), j) by {
        if occurs_at(t, blank_line(), j) {
            let found = t.subrange(j, j + 4);
            assert(found[0] == '\r' && found[1] == '\n');
            assert(t[j] == '\r' && t[j + 1] == '\n');
            if j + 1 < line.len() {
                assert(line.subrange(j, j + 2) =~= crlf());
                assert(occurs_at(line, crlf(), j));
            } else {
                assert(t[j + 1] == opening()[j + 1 - line.len()]);
            }
        }
    }
}

/// Where lines that end in the opening of a blank line hold no blank line,
/// they hold none with one more line behind them.
proof fn lemma_next_line_opens_no_blank_line(before: Seq<char>, line: Seq<char>)
    requires
        !occurs(before + opening(), blank_line()),
        line.len() > 0,
        !occurs(line, crlf()),
    ensures
        !occurs(before + crlf() + line + opening(), blank_line()),
{
    let old_text = before + opening();
    let t = before + crlf() + line + opening();
    let h = before.len() as int;
    assert(t[h] == '\r' && t[h + 1] == '\n');
    assert forall|j: int| !occurs_at(t, blank_line(), j) by {
        if occurs_at(t, blank_line(), j) {
            let found = t.subrange(j, j + 4);
            assert(found[0] == '\r' && found[1] == '\n' && found[2] == '\r' && found[3]
                == '\n');
            assert(t[j] == '\r' && t[j + 1] == '\n' && t[j + 2] == '\r' && t[j + 3] == '\n');
            if j + 2 <= h {
                assert(old_text.subrange(j, j + 4) =~= found);
                assert(occurs_at(old_text, blank_line(), j));
            } else if j == h - 1 {
                assert(t[j + 2] == '\n');
            } else if j == h {
                assert(t[h + 2] == line[0]);
                if line.len() >= 2 {
                    assert(t[h + 3] == line[1]);
                    assert(line.subrange(0, 2) =~= crlf());
                    assert(occurs_at(line, crlf(), 0));
                } else {
                    assert(t[h + 3] == opening()[0]);
                }
            } else if j == h + 1 {
                assert(t[j] == '\n');
            } else {
                let m = j - h - 2;
                assert(0 <= m < line.len());
                assert(t[j] == line[m]);
                if m + 1 < line.len() {
                    assert(t[j + 1] == line[m + 1]);
                    assert(line.subrange(m, m + 2) =~= crlf());
                    assert(occurs_at(line, crlf(), m));
                } else {
                    assert(t[j + 1] == opening()[0]);
                }
            }
        }
    }
}

/// Lines that hold no line terminator and are not empty hold, joined, no
/// blank line, also with the opening of a blank line behind them.
proof fn lemma_lines_open_no_blank_line(parts: Seq<Seq<char>>)
    requires
        parts.len() >= 1,
        forall|i: int|
            0 <= i < parts.len() ==> (#[trigger] parts[i]).len() > 0 && !occurs(parts[i], crlf()),
    ensures
        !occurs(joined(parts, crlf()) + opening(), blank_line()),
    decreases parts.len(),
{
    if parts.len() == 1 {
        lemma_line_opens_no_blank_line(parts[0]);
    } else {
        let front = parts.drop_last();
        let last = parts.last();
        assert(parts =~= front.push(last));
        assert forall|i: int| 0 <= i < front.len() implies (#[trigger] front[i]).len() > 0
            && !occurs(front[i], crlf()) by {
            assert(front[i] == parts[i]);
        }
        lemma_lines_open_no_blank_line(front);
        lemma_joined_push(front, crlf(), last);
        lemma_next_line_opens_no_blank_line(joined(front, crlf()), last);
    }
}

/// Where the head holds no blank line, not even one that ends in the
/// blank line behind it, and the body holds no line terminator, the text
/// is cut at that blank line and nowhere else.
proof fn lemma_cut_at_blank_line(head: Seq<char>, body: Seq<char>)
    requires
        !occurs(head + opening(), blank_line()),
        !occurs(body, crlf()),
    ensures
        pieces(head + blank_line() + body, blank_line()) == seq![head, body],
{
    let text = head + blank_line() + body;
    let at = head.len() as int;
    assert forall|j: int| 0 <= j < at implies !occurs_at(text, blank_line(), j) by {
        if occurs_at(text, blank_line(), j) {
            assert((head + opening()).subrange(j, j + 4) =~= text.subrange(j, j + 4));
            assert(occurs_at(head + opening(), blank_line(), j));
        }
    }
    lemma_find_after(head, blank_line(), body);
    assert forall|j: int| !occurs_at(body, blank_line(), j) by {
        if occurs_at(body, blank_line(), j) {
            assert(body.subrange(j, j + 2) =~= body.subrange(j, j + 4).subrange(0, 2));
            assert(blank_line().subrange(0, 2) =~= crlf());
            assert(occurs_at(body, crlf(), j));
        }
    }
    lemma_find_none(body, blank_line());
    assert(text.subrange(0, at) =~= head);
    assert(text.subrange(at + 4, text.len() as int) =~= body);
    assert(pieces(text, blank_line()) =~= seq![head] + seq![body]);
    assert(seq![head] + seq![body] =~= seq![head, body]);
}

/// Two line terminators in a row are a blank line.
proof fn lemma_two_terminators(head: Seq<char>, body: Seq<char>)
    ensures
        head + crlf() + crlf() + body == head + blank_line() + body,
{
    assert(crlf() + crlf() =~= blank_line());
    assert(head + crlf() + crlf() + body =~= head + (crlf() + crlf()) + body);
}

/// With the blank line taken for one line terminator, the text is its
/// lines joined.
proof fn lemma_normal_form(parts: Seq<Seq<char>>, body: Seq<char>)
    requires
        parts.len() >= 1,
        !occurs(joined(parts, crlf()) + opening(), blank_line()),
        !occurs(body, crlf()),
    ensures
        replaced(joined(parts, crlf()) + blank_line() + body, blank_line(), crlf()) == joined(
            parts.push(body),
            crlf(),
        ),
{
    let head = joined(parts, crlf());
    lemma_cut_at_blank_line(head, body);
    assert(seq![head].push(body) =~= seq![head, body]);
    lemma_joined_push(seq![head], crlf(), body);
    lemma_joined_push(parts, crlf(), body);
}

/// A token that names a method holds neither a space nor a line terminator.
proof fn lemma_method_token_is_plain(method: Seq<char>)
    requires
        method_of(method) is Ok,
    ensures
        !occurs(method, space()),
        !occurs(method, crlf()),
{
    let folded = lower(method);
    let get = seq!['g', 'e', 't'];
    let post = seq!['p', 'o', 's', 't'];
    assert(get[0] == 'g' && get[1] == 'e' && get[2] == 't');
    assert(post[0] == 'p' && post[1] == 'o' && post[2] == 's' && post[3] == 't');
    assert forall|i: int| 0 <= i < method.len() implies method[i] != ' ' && method[i] != '\r' by {
        assert(folded[i] == lower_char(method[i]));
        assert(lower_char(' ') == ' ' && lower_char('\r') == '\r');
        if folded == get {
            assert(folded.len() == 3);
            assert(i == 0 || i == 1 || i == 2);
            assert(folded[i] == get[i]);
        } else {
            assert(folded == post);
            assert(folded.len() == 4);
            assert(i == 0 || i == 1 || i == 2 || i == 3);
            assert(folded[i] == post[i]);
        }
    }
    lemma_without_first(method, space());
    lemma_without_first(method, crlf());
}

/// The request line holds no line terminator, and is cut at its spaces
/// into the method, the path and the version.
proof fn lemma_request_line(method: Seq<char>, path: Seq<char>, version: Seq<char>)
    requires
        method_of(method) is Ok,
        !occurs(path, space()),
        !occurs(path, crlf()),
        !occurs(version, crlf()),
    ensures
        request_line(method, path, version).len() > 0,
        !occurs(request_line(method, path, version), crlf()),
        method_token(request_line(method, path, version)) == method,
        endpoint_token(request_line(method, path, version)) == Some(path),
{
    let line = request_line(method, path, version);
    lemma_method_token_is_plain(method);
    lemma_without_first(space(), crlf());
    lemma_concat_free(method, space(), crlf());
    lemma_concat_free(method + space(), path, crlf());
    lemma_concat_free(method + space() + path, space(), crlf());
    lemma_concat_free(method + space() + path + space(), version, crlf());
    let rest = path + space() + version;
    assert(line =~= method + space() + rest);
    lemma_short_after(method, space(), rest);
    lemma_short_after(path, space(), version);
}

/// The line of a plain field is not empty, holds no line terminator, and
/// is read as that field.
proof fn lemma_field_text(field: Field)
    requires
        is_plain_field(field),
    ensures
        field_text(field).len() > 0,
        !occurs(field_text(field), crlf()),
        is_field_line(field_text(field)),
        field_of(field_text(field)) == (lower_name(field.0), field.1),
{
    lemma_without_first(colon_space(), crlf());
    lemma_concat_free(field.0, colon_space(), crlf());
    lemma_concat_free(field.0 + colon_space(), field.1, crlf());
    lemma_short_after(field.0, colon_space(), field.1);
}

/// The lines of a request text are the request line, the lines of the
/// header fields, and the body.
proof fn lemma_lines(first: Seq<char>, fields: Seq<Field>, body: Seq<char>)
    requires
        first.len() > 0,
        !occurs(first, crlf()),
        forall|i: int| 0 <= i < fields.len() ==> is_plain_field(#[trigger] fields[i]),
        !occurs(body, crlf()),
    ensures
        lines_of(first + crlf() + header_block(fields) + crlf() + body) == (seq![first]
            + field_texts(fields)).push(body),
{
    let parts = seq![first] + field_texts(fields);
    let head = joined(parts, crlf());
    let text = first + crlf() + header_block(fields) + crlf() + body;
    assert(text == head + blank_line() + body) by {
        lemma_head(first, fields);
        lemma_two_terminators(head, body);
    }
    assert forall|i: int| 0 <= i < parts.len() implies (#[trigger] parts[i]).len() > 0 && !occurs(
        parts[i],
        crlf(),
    ) by {
        if i > 0 {
            assert(parts[i] == field_text(fields[i - 1]));
            lemma_field_text(fields[i - 1]);
        }
    }
    lemma_lines_open_no_blank_line(parts);
    lemma_normal_form(parts, body);
    let all = parts.push(body);
    assert(pieces(joined(all, crlf()), crlf()) == all) by {
        assert forall|i: int| 0 <= i < all.len() implies !occurs(#[trigger] all[i], crlf()) by {
            if i < parts.len() {
                assert(all[i] == parts[i]);
            }
        }
        lemma_pieces_joined(all, crlf());
    }
}

/// The lines of header fields are read as the fields, with their names in
/// lower case.
proof fn lemma_gathered_texts(fields: Seq<Field>)
    requires
        forall|i: int| 0 <= i < fields.len() ==> is_plain_field(#[trigger] fields[i]),
    ensures
        forall|i: int| 0 <= i < fields.len() ==> is_field_line(#[trigger] field_texts(fields)[i]),
        gathered(field_texts(fields)) == lowered(fields),
    decreases fields.len(),
{
    assert forall|i: int| 0 <= i < fields.len() implies is_field_line(
        #[trigger] field_texts(fields)[i],
    ) && field_of(field_texts(fields)[i]) == (lower_name(fields[i].0), fields[i].1) by {
        lemma_field_text(fields[i]);
    }
    if fields.len() > 0 {
        let front = fields.drop_last();
        lemma_gathered_texts(front);
        assert(field_texts(fields).drop_last() =~= field_texts(front));
        assert(field_texts(fields).last() == field_text(fields.last()));
    }
}

/// Reading recovers the request. A text made of a method name in any case,
/// a path without spaces, a version, header fields that one line each can
/// carry and a body, none of them holding a line terminator, is read as
/// that method, that path, those fields under their names in lower case,
/// and that body. A body that is blank is read as no body.
pub proof fn parse_recovers_request(
    method: Seq<char>,
    path: Seq<char>,
    version: Seq<char>,
    fields: Seq<Field>,
    body: Seq<char>,
)
    requires
        method_of(method) is Ok,
        !occurs(path, space()),
        !occurs(path, crlf()),
        !occurs(version, crlf()),
        forall|i: int| 0 <= i < fields.len() ==> is_plain_field(#[trigger] fields[i]),
        !occurs(body, crlf()),
    ensures
        parsed(request_text(method, path, version, fields, body)) == Ok::<
            RequestView,
            RequestError,
        >(
            RequestView {
                method: method_of(method)->Ok_0,
                headers: lowered(fields),
                endpoint: path,
                body: if is_blank(body) {
                    None
                } else {
                    Some(body)
                },
            },
        ),
{
    let first = request_line(method, path, version);
    let text = request_text(method, path, version, fields, body);
    lemma_request_line(method, path, version);
    lemma_lines(first, fields, body);
    let lines = lines_of(text);
    let texts = field_texts(fields);
    assert(lines == (seq![first] + texts).push(body));
    assert(lines[0] == first);
    assert(lines.last() == body);
    assert(header_lines(lines) =~= texts);
    lemma_gathered_texts(fields);
    lemma_field_lines(texts, texts.len() as int);
    assert(texts.take(texts.len() as int) =~= texts);
    assert(fields_of(lines) == lowered(fields));
    assert(body_of(lines) == if is_blank(body) {
        None
    } else {
        Some(body)
    });
}

/// The value that the last field named `name`, whatever the case of the
/// letters, gives to that name.
pub open spec fn last_value(fields: Seq<Field>, name: Seq<char>) -> Option<Seq<char>>
    decreases fields.len(),
{
    if fields.len() == 0 {
        None
    } else if same_name(fields.last().0, name) {
        Some(fields.last().1)
    } else {
        last_value(fields.drop_last(), name)
    }
}

/// Header names are looked up whatever their case: a name finds the value
/// of the last field that was written under that name in any case.
pub proof fn lookup_ignores_case(fields: Seq<Field>, name: Seq<char>)
    ensures
        value_of(lowered(fields), lower_name(name)) == last_value(fields, name),
    decreases fields.len(),
{
    if fields.len() == 0 {
        assert(!has_name(lowered(fields), lower_name(name)));
    } else {
        let front = fields.drop_last();
        lookup_ignores_case(front, name);
        lemma_lowered(front);
        lemma_with_field_value(
            lowered(front),
            lower_name(fields.last().0),
            fields.last().1,
            lower_name(name),
        );
    }
}

/// A request that was read from its text gives, for a header name in any
/// case, the value that the text gives last to that name.
pub proof fn parsed_header_ignores_case(
    method: Seq<char>,
    path: Seq<char>,
    version: Seq<char>,
    fields: Seq<Field>,
    body: Seq<char>,
    name: Seq<char>,
)
    requires
        method_of(method) is Ok,
        !occurs(path, space()),
        !occurs(path, crlf()),
        !occurs(version, crlf()),
        forall|i: int| 0 <= i < fields.len() ==> is_plain_field(#[trigger] fields[i]),
        !occurs(body, crlf()),
    ensures
        parsed(request_text(method, path, version, fields, body)) matches Ok(request)
            && request.header(name) == last_value(fields, name),
{
    parse_recovers_request(method, path, version, fields, body);
    lookup_ignores_case(fields, name);
}

} // verus!
