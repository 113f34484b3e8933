//! Rendering of a metadata record as a JSON document with a fixed field
//! order and layout, so that two runs over the same input produce the
//! same bytes.

use crate::details::DetailsView;
use vstd::prelude::*;

verus! {

/// The one-character string for a hexadecimal digit.
pub open spec fn spec_hex_digit_str(v: nat) -> Seq<char> {
    if v == 0 {
        "0"@
    } else if v == 1 {
        "1"@
    } else if v == 2 {
        "2"@
    } else if v == 3 {
        "3"@
    } else if v == 4 {
        "4"@
    } else if v == 5 {
        "5"@
    } else if v == 6 {
        "6"@
    } else if v == 7 {
        "7"@
    } else if v == 8 {
        "8"@
    } else if v == 9 {
        "9"@
    } else if v == 10 {
        "a"@
    } else if v == 11 {
        "b"@
    } else if v == 12 {
        "c"@
    } else if v == 13 {
        "d"@
    } else if v == 14 {
        "e"@
    } else {
        "f"@
    }
}

/// How one character reads inside a JSON string literal: quotes and
/// backslashes escaped, control characters as `\u00..`, all else verbatim.
pub open spec fn spec_escape_char(c: char) -> Seq<char> {
    if c == '"' {
        "\\\""@
    } else if c == '\\' {
        "\\\\"@
    } else if (c as u32) < 32 {
        "\\u00"@ + spec_hex_digit_str(((c as u32) / 16) as nat) + spec_hex_digit_str(
            ((c as u32) % 16) as nat,
        )
    } else {
        seq![c]
    }
}

/// A whole string escaped, character by character.
pub open spec fn spec_escape(s: Seq<char>) -> Seq<char>
    decreases s.len(),
{
    if s.len() == 0 {
        Seq::empty()
    } else {
        spec_escape(s.drop_last()) + spec_escape_char(s.last())
    }
}

/// A JSON string literal: the escaped text between double quotes.
pub open spec fn spec_json_string(s: Seq<char>) -> Seq<char> {
    "\""@ + spec_escape(s) + "\""@
}

/// Every array element after the first: a separating comma, a line break,
/// the element's indentation, and the element itself.
pub open spec fn spec_json_items_rest(items: Seq<Seq<char>>) -> Seq<char>
    decreases items.len(),
{
    if items.len() == 0 {
        Seq::empty()
    } else {
        spec_json_items_rest(items.drop_last()) + ",\n    "@ + spec_json_string(items.last())
    }
}

/// A JSON array of strings, one element per line, indented for a record
/// whose fields sit one level deep.
pub open spec fn spec_json_array(items: Seq<Seq<char>>) -> Seq<char> {
    if items.len() == 0 {
        "[]"@
    } else {
        "[\n    "@ + spec_json_string(items[0]) + spec_json_items_rest(items.drop_first())
            + "\n  ]"@
    }
}

/// The serialized form of a metadata record: an object with the fields
/// in their one fixed order.
pub open spec fn spec_details_json(d: DetailsView) -> Seq<char> {
    "{\n  \"title\": "@ + spec_json_string(d.title) + ",\n  \"author\": "@ + spec_json_string(
        d.author,
    ) + ",\n  \"artist\": "@ + spec_json_string(d.artist) + ",\n  \"description\": "@
        + spec_json_string(d.description) + ",\n  \"genre\": "@ + spec_json_array(d.genre)
        + ",\n  \"status\": "@ + spec_json_string(d.status) + ",\n  \"_status values\": "@
        + spec_json_array(d.status_values) + "\n}"@
}

/// The same document as the bytes that reach the sidecar file.
pub open spec fn spec_details_json_bytes(d: DetailsView) -> Seq<u8> {
    vstd::utf8::encode_utf8(spec_details_json(d))
}

fn hex_digit_str(v: u32) -> (r: &'static str)
    requires
        v < 16,
    ensures
        r@ == spec_hex_digit_str(v as nat),
{
    match v {
        0 => "0",
        1 => "1",
        2 => "2",
        3 => "3",
        4 => "4",
        5 => "5",
        6 => "6",
        7 => "7",
        8 => "8",
        9 => "9",
        10 => "a",
        11 => "b",
        12 => "c",
        13 => "d",
        14 => "e",
        _ => "f",
    }
}

/// Appends the escaped text of `s` to `out`.
fn append_escaped(out: &mut String, s: &str)
    ensures
        final(out)@ == old(out)@ + spec_escape(s@),
{
    let n = s.unicode_len();
    let mut i: usize = 0;
    while i < n
        invariant
            i <= n,
            n == s@.len(),
            out@ == old(out)@ + spec_escape(s@.take(i as int)),
        decreases n - i,
    {
        let c = s.get_char(i);
        if c == '"' {
            out.append("\\\"");
        } else if c == '\\' {
            out.append("\\\\");
        } else {
            let v = c as u32;
            if v < 32 {
                out.append("\\u00");
                out.append(hex_digit_str(v / 16));
                out.append(hex_digit_str(v % 16));
            } else {
                out.append(s.substring_char(i, i + 1));
            }
        }
        proof {
            assert(s@.take(i + 1).drop_last() =~= s@.take(i as int));
            assert(s@.take(i + 1).last() == s@[i as int]);
            assert(s@.subrange(i as int, i + 1) =~= seq![s@[i as int]]);
            assert(out@ =~= old(out)@ + spec_escape(s@.take(i + 1)));
        }
        i = i + 1;
    }
    proof {
        assert(s@.take(n as int) =~= s@);
    }
}

/// Appends the JSON string literal for `s` to `out`.
pub(crate) fn append_json_string(out: &mut String, s: &str)
    ensures
        final(out)@ == old(out)@ + spec_json_string(s@),
{
    out.append("\"");
    append_escaped(out, s);
    out.append("\"");
    proof {
        assert(out@ =~= old(out)@ + spec_json_string(s@));
    }
}

/// Appends the JSON array of the given strings to `out`.
pub(crate) fn append_json_array(out: &mut String, items: &Vec<String>)
    ensures
        final(out)@ == old(out)@ + spec_json_array(items.deep_view()),
{
    let n = items.len();
    if n == 0 {
        out.append("[]");
        proof {
            assert(items.deep_view().len() == 0);
        }
        return ;
    }
    out.append("[\n    ");
    append_json_string(out, items[0].as_str());
    let mut i: usize = 1;
    while i < n
        invariant
            1 <= i <= n,
            n == items@.len(),
            items.deep_view().len() == n,
            forall|j: int| 0 <= j < n ==> items.deep_view()[j] == items@[j]@,
            out@ == old(out)@ + "[\n    "@ + spec_json_string(items.deep_view()[0])
                + spec_json_items_rest(items.deep_view().subrange(1, i as int)),
        decreases n - i,
    {
        out.append(",\n    ");
        append_json_string(out, items[i].as_str());
        proof {
            let dv = items.deep_view();
            assert(dv.subrange(1, i + 1).drop_last() =~= dv.subrange(1, i as int));
            assert(dv.subrange(1, i + 1).last() == dv[i as int]);
            assert(out@ =~= old(out)@ + "[\n    "@ + spec_json_string(dv[0])
                + spec_json_items_rest(dv.subrange(1, i + 1)));
        }
        i = i + 1;
    }
    out.append("\n  ]");
    proof {
        let dv = items.deep_view();
        assert(dv.subrange(1, n as int) =~= dv.drop_first());
        assert(out@ =~= old(out)@ + spec_json_array(dv));
    }
}

} // verus!
