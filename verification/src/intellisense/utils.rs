//! The lines that describe a cursor.

use vstd::prelude::*;
use vstd::string::StringExecFns;
use vstd::string::StringSliceAdditionalSpecFns;

use crate::intellisense::wrapper::{DxcCursor, DxcSourceOffsets};

verus! {

/// The names that were read from a cursor, and its kind flags as text.
pub struct DxcCursorNames {
    pub display_name: String,
    pub kind_flags: String,
    pub cursor_type: String,
    pub spelling: String,
    pub formatted_name: String,
    pub qualified_name: String,
}

/// `n` spaces.
pub open spec fn spaces(n: nat) -> Seq<char> {
    Seq::new(n, |i: int| ' ')
}

/// The character of one decimal digit.
pub open spec fn decimal_digit(d: int) -> char {
    (48 + d) as char
}

/// The decimal digits of `n`, without leading zeros; `"0"` for zero.
pub open spec fn decimal_digits(n: nat) -> Seq<char>
    decreases n,
{
    if n < 10 {
        seq![decimal_digit(n as int)]
    } else {
        decimal_digits(n / 10).push(decimal_digit((n % 10) as int))
    }
}

/// A text as `{:?}` shows it: in double quotes, with what needs it escaped.
pub uninterp spec fn debug_quoted(text: Seq<char>) -> Seq<char>;

/// `format!("{:?}", text)`: the text as its `Debug` form shows it.
#[verifier::external_body]
fn debug_text(text: &str) -> (quoted: String)
    ensures
        quoted@ == debug_quoted(text@),
{
    format!("{:?}", text)
}

/// The first line for a cursor: its extent, its display name, its kind
/// flags, the spelling of its type and its own spelling.
pub open spec fn summary_line(indent: nat, extent: DxcSourceOffsets, names: DxcCursorNames) -> Seq<
    char,
> {
    spaces(indent) + " - ["@ + decimal_digits(extent.start_offset as nat) + ":"@ + decimal_digits(
        extent.end_offset as nat,
    ) + "] "@ + debug_quoted(names.display_name@) + " kind_flags: "@ + names.kind_flags@
        + " cursor type: "@ + debug_quoted(names.cursor_type@) + " spelling: "@ + debug_quoted(
        names.spelling@,
    )
}

/// A line that gives one more thing about a cursor, one step further in.
pub open spec fn detail_line(indent: nat, label: Seq<char>, text: Seq<char>) -> Seq<char> {
    spaces(indent + 1) + label + debug_quoted(text)
}

/// The four lines that describe a cursor at a depth of `indent`.
pub open spec fn cursor_lines(
    indent: nat,
    extent: DxcSourceOffsets,
    names: DxcCursorNames,
    source_text: Seq<char>,
) -> Seq<Seq<char>> {
    seq![
        summary_line(indent, extent, names),
        detail_line(indent, " > formatted name "@, names.formatted_name@),
        detail_line(indent, " > qualified name "@, names.qualified_name@),
        detail_line(indent, " > source "@, source_text),
    ]
}

fn push_spaces(text: &mut String, n: usize)
    ensures
        final(text)@ == old(text)@ + spaces(n as nat),
{
    let mut i: usize = 0;
    assert(text@ =~= old(text)@ + spaces(0));
    while i < n
        invariant
            i <= n,
            text@ == old(text)@ + spaces(i as nat),
        decreases n - i,
    {
        text.push(' ');
        i += 1;
        assert(text@ =~= old(text)@ + spaces(i as nat));
    }
}

fn push_decimal(text: &mut String, v: u32)
    ensures
        final(text)@ == old(text)@ + decimal_digits(v as nat),
    decreases v,
{
    if v >= 10 {
        push_decimal(text, v / 10);
    }
    let d: u8 = (v % 10) as u8;
    text.push((48 + d) as char);
    assert(text@ =~= old(text)@ + decimal_digits(v as nat));
}

fn detail(indent: usize, label: &str, value: &str) -> (line: String)
    requires
        indent < usize::MAX,
    ensures
        line@ == detail_line(indent as nat, label@, value@),
{
    let mut line = String::new();
    push_spaces(&mut line, indent + 1);
    line.append(label);
    let quoted = debug_text(value);
    line.append(quoted.as_str());
    assert(line@ =~= detail_line(indent as nat, label@, value@));
    line
}

/// The lines that describe a cursor of the given names at a depth of
/// `indent`: a summary, then its formatted name, its qualified name and
/// the source that it covers, each one step further in.
pub fn format_cursor(cursor: &DxcCursor, names: &DxcCursorNames, source: &str, indent: usize) -> (lines:
    Vec<String>)
    requires
        cursor.extent().selects(source),
        indent < usize::MAX,
    ensures
        lines@.len() == 4,
        forall|i: int|
            0 <= i < 4 ==> (#[trigger] lines@[i])@ == cursor_lines(
                indent as nat,
                cursor.extent(),
                *names,
                cursor_source(cursor.extent(), source),
            )[i],
{
    let extent = cursor.get_extent();
    let source_text = cursor.get_source(source);

    let mut summary = String::new();
    push_spaces(&mut summary, indent);
    summary.append(" - [");
    push_decimal(&mut summary, extent.start_offset);
    summary.append(":");
    push_decimal(&mut summary, extent.end_offset);
    summary.append("] ");
    let display_name = debug_text(names.display_name.as_str());
    summary.append(display_name.as_str());
    summary.append(" kind_flags: ");
    summary.append(names.kind_flags.as_str());
    summary.append(" cursor type: ");
    let cursor_type = debug_text(names.cursor_type.as_str());
    summary.append(cursor_type.as_str());
    summary.append(" spelling: ");
    let spelling = debug_text(names.spelling.as_str());
    summary.append(spelling.as_str());
    assert(summary@ =~= summary_line(indent as nat, cursor.extent(), *names));

    let mut lines: Vec<String> = Vec::new();
    lines.push(summary);
    lines.push(detail(indent, " > formatted name ", names.formatted_name.as_str()));
    lines.push(detail(indent, " > qualified name ", names.qualified_name.as_str()));
    proof {
        lemma_source_text(cursor.extent(), source, source_text);
    }
    lines.push(detail(indent, " > source ", source_text));
    lines
}

/// The characters of the piece of `source` that the offsets name.
pub open spec fn cursor_source(extent: DxcSourceOffsets, source: &str) -> Seq<char> {
    vstd::utf8::decode_utf8(
        source.spec_bytes().subrange(extent.start_offset as int, extent.end_offset as int),
    )
}

/// A text is what its bytes decode to.
proof fn lemma_source_text(extent: DxcSourceOffsets, source: &str, text: &str)
    requires
        text.spec_bytes() == source.spec_bytes().subrange(
            extent.start_offset as int,
            extent.end_offset as int,
        ),
    ensures
        text@ == cursor_source(extent, source),
{
    vstd::utf8::encode_utf8_decode_utf8(text@);
}

} // verus!
