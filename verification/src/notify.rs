//! The text of the desktop notifications shown after an extraction.

use vstd::prelude::*;

use crate::text::{chars_of, decimal, push_char, push_decimal, push_str};

verus! {

/// The XML form of one character: `&`, `<`, `>`, `"` and `'` become entity references.
pub open spec fn escape_char(c: char) -> Seq<char> {
    if c == '&' {
        "&amp;"@
    } else if c == '<' {
        "&lt;"@
    } else if c == '>' {
        "&gt;"@
    } else if c == '"' {
        "&quot;"@
    } else if c == '\'' {
        "&apos;"@
    } else {
        seq![c]
    }
}

/// `s` with each character put in its XML form.
pub open spec fn xml_escaped(s: Seq<char>) -> Seq<char>
    decreases s.len(),
{
    if s.len() == 0 {
        seq![]
    } else {
        xml_escaped(s.drop_last()) + escape_char(s.last())
    }
}

/// Escaped text holds none of the characters that would end a text node or an
/// attribute value: no `<`, `>`, `"` or `'`.
pub proof fn lemma_escaped_has_no_markup(s: Seq<char>)
    ensures
        !xml_escaped(s).contains('<'),
        !xml_escaped(s).contains('>'),
        !xml_escaped(s).contains('"'),
        !xml_escaped(s).contains('\''),
    decreases s.len(),
{
    reveal_strlit("&amp;");
    reveal_strlit("&lt;");
    reveal_strlit("&gt;");
    reveal_strlit("&quot;");
    reveal_strlit("&apos;");
    if s.len() > 0 {
        lemma_escaped_has_no_markup(s.drop_last());
        let a = xml_escaped(s.drop_last());
        let b = escape_char(s.last());
        assert(xml_escaped(s) == a + b);
        assert forall|c: char| c == '<' || c == '>' || c == '"' || c == '\'' implies !(a + b).contains(c) by {
            if (a + b).contains(c) {
                let k = choose|k: int| 0 <= k < (a + b).len() && (a + b)[k] == c;
                if k < a.len() {
                    assert(a[k] == c);
                } else {
                    assert(b[k - a.len()] == c);
                }
            }
        }
    }
}

/// Escapes special XML characters in a string.
pub fn escape_xml(s: &str) -> (r: String)
    ensures
        r@ == xml_escaped(s@),
{
    let cs = chars_of(s);
    let mut r = String::new();
    let mut i: usize = 0;
    while i < cs.len()
        invariant
            i <= cs.len(),
            cs@ == s@,
            r@ == xml_escaped(cs@.take(i as int)),
        decreases cs.len() - i,
    {
        let c = cs[i];
        assert(cs@.take(i + 1).drop_last() =~= cs@.take(i as int));
        assert(cs@.take(i + 1).last() == c);
        if c == '&' {
            push_str(&mut r, "&amp;");
        } else if c == '<' {
            push_str(&mut r, "&lt;");
        } else if c == '>' {
            push_str(&mut r, "&gt;");
        } else if c == '"' {
            push_str(&mut r, "&quot;");
        } else if c == '\'' {
            push_str(&mut r, "&apos;");
        } else {
            push_char(&mut r, c);
            assert(r@ =~= xml_escaped(cs@.take(i as int)) + seq![c]);
        }
        i = i + 1;
    }
    assert(cs@.take(i as int) =~= cs@);
    r
}

/// The decimal notation of a signed number.
pub open spec fn signed_decimal(n: int) -> Seq<char> {
    if n < 0 {
        "-"@ + decimal((-n) as nat)
    } else {
        decimal(n as nat)
    }
}

/// Appends the decimal notation of a signed number.
fn push_signed(s: &mut String, n: i32)
    ensures
        final(s)@ == old(s)@ + signed_decimal(n as int),
{
    if n < 0 {
        push_str(s, "-");
        let m: i64 = -(n as i64);
        push_decimal(s, m as u64);
    } else {
        push_decimal(s, n as u64);
    }
}

/// The characters with the Unicode `White_Space` property (`char::is_whitespace`).
pub open spec fn is_white_space(c: char) -> bool {
    ||| ('\u{9}' <= c && c <= '\u{D}')
    ||| c == ' '
    ||| c == '\u{85}'
    ||| c == '\u{A0}'
    ||| c == '\u{1680}'
    ||| ('\u{2000}' <= c && c <= '\u{200A}')
    ||| c == '\u{2028}'
    ||| c == '\u{2029}'
    ||| c == '\u{202F}'
    ||| c == '\u{205F}'
    ||| c == '\u{3000}'
}

/// Whether `c` has the Unicode `White_Space` property.
pub fn white_space(c: char) -> (r: bool)
    ensures
        r == is_white_space(c),
{
    ('\u{9}' <= c && c <= '\u{D}') || c == ' ' || c == '\u{85}' || c == '\u{A0}' || c == '\u{1680}'
        || ('\u{2000}' <= c && c <= '\u{200A}') || c == '\u{2028}' || c == '\u{2029}' || c
        == '\u{202F}' || c == '\u{205F}' || c == '\u{3000}'
}

/// `s` is empty once surrounding white space is trimmed: it holds nothing else.
pub open spec fn is_blank(s: Seq<char>) -> bool {
    forall|i: int| 0 <= i < s.len() ==> is_white_space(#[trigger] s[i])
}

/// Whether `s` consists of white space only (`str::trim` leaves it empty).
pub fn blank(s: &str) -> (r: bool)
    ensures
        r == is_blank(s@),
{
    let cs = chars_of(s);
    let mut i: usize = 0;
    while i < cs.len()
        invariant
            i <= cs.len(),
            cs@ == s@,
            forall|j: int| 0 <= j < i ==> is_white_space(#[trigger] cs@[j]),
        decreases cs.len() - i,
    {
        if !white_space(cs[i]) {
            return false;
        }
        i = i + 1;
    }
    true
}

/// The XML of the toast shown after a successful extraction: "Extracted {count}
/// files from {archive}", with an "Open Folder" button that opens the output folder.
pub open spec fn success_xml(archive_name: Seq<char>, output_folder: Seq<char>, file_count: int) -> Seq<
    char,
> {
    "<toast><visual><binding template=\"ToastGeneric\"><text>Extraction complete</text><text>Extracted "@
        + signed_decimal(file_count) + " files from "@ + xml_escaped(archive_name)
        + "</text></binding></visual><actions><action content=\"Open Folder\" activationType=\"protocol\" arguments=\"explorer.exe "@
        + xml_escaped(output_folder) + "\"/></actions></toast>"@
}

/// The message shown when the error message is blank.
pub open spec fn fallback_message() -> Seq<char> {
    "Something went wrong \u{2014} please try again"@
}

/// The XML of the toast shown after a failed extraction: "Couldn't extract {archive}
/// — {message}", the message replaced by a fallback when it is blank; no button.
pub open spec fn failure_xml(archive_name: Seq<char>, error_msg: Seq<char>) -> Seq<char> {
    let msg = if is_blank(error_msg) {
        fallback_message()
    } else {
        error_msg
    };
    "<toast><visual><binding template=\"ToastGeneric\"><text>Extraction failed</text><text>Couldn\u{2019}t extract "@
        + xml_escaped(archive_name) + " \u{2014} "@ + xml_escaped(msg)
        + "</text></binding></visual></toast>"@
}

/// Builds the XML document text for a success toast.
/// Body text: "Extracted {file_count} files from {archive_name}"
/// Includes one "Open Folder" action button.
pub fn success_toast_xml(archive_name: &str, output_folder: &str, file_count: i32) -> (r: String)
    ensures
        r@ == success_xml(archive_name@, output_folder@, file_count as int),
{
    let mut r = String::new();
    push_str(
        &mut r,
        "<toast><visual><binding template=\"ToastGeneric\"><text>Extraction complete</text><text>Extracted ",
    );
    push_signed(&mut r, file_count);
    push_str(&mut r, " files from ");
    let name = escape_xml(archive_name);
    push_str(&mut r, name.as_str());
    push_str(
        &mut r,
        "</text></binding></visual><actions><action content=\"Open Folder\" activationType=\"protocol\" arguments=\"explorer.exe ",
    );
    let folder = escape_xml(output_folder);
    push_str(&mut r, folder.as_str());
    push_str(&mut r, "\"/></actions></toast>");
    r
}

/// Builds the XML document text for a failure toast.
/// Substitutes an empty or whitespace-only error message with a fallback.
/// No action button.
pub fn failure_toast_xml(archive_name: &str, error_msg: &str) -> (r: String)
    ensures
        r@ == failure_xml(archive_name@, error_msg@),
{
    let effective_msg = if blank(error_msg) {
        "Something went wrong \u{2014} please try again"
    } else {
        error_msg
    };
    let mut r = String::new();
    push_str(
        &mut r,
        "<toast><visual><binding template=\"ToastGeneric\"><text>Extraction failed</text><text>Couldn\u{2019}t extract ",
    );
    let name = escape_xml(archive_name);
    push_str(&mut r, name.as_str());
    push_str(&mut r, " \u{2014} ");
    let msg = escape_xml(effective_msg);
    push_str(&mut r, msg.as_str());
    push_str(&mut r, "</text></binding></visual></toast>");
    r
}

} // verus!
