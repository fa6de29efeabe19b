//! Lines of text that are built up one by one.
use vstd::prelude::*;
use vstd::string::*;
use crate::binary64::Binary64;
use crate::text::{
    decimal, decimal_text, fixed0, fixed1, push_fixed0, push_fixed1, push_right, right_aligned,
};

verus! {

/// What a list of strings says.
pub open spec fn text_lines(list: Seq<String>) -> Seq<Seq<char>> {
    Seq::new(list.len(), |i: int| list[i]@)
}

/// Adds a line.
pub(crate) fn add_line(lines: &mut Vec<String>, line: String)
    ensures
        text_lines(final(lines)@) == text_lines(old(lines)@).push(line@),
{
    lines.push(line);
    assert(text_lines(lines@) =~= text_lines(old(lines)@).push(line@));
}

/// Adds a line that is always the same.
pub(crate) fn add_text(lines: &mut Vec<String>, line: &str)
    ensures
        text_lines(final(lines)@) == text_lines(old(lines)@).push(line@),
{
    add_line(lines, line.to_string());
}

/// Text after a label.
pub(crate) fn labelled(label: &str, text: &str) -> (r: String)
    ensures
        r@ == label@ + text@,
{
    let mut s: String = label.to_string();
    s.append(text);
    s
}

/// Text after a label, with a unit behind it.
pub(crate) fn labelled_in(label: &str, text: &str, unit: &str) -> (r: String)
    ensures
        r@ == label@ + text@ + unit@,
{
    let mut s: String = labelled(label, text);
    s.append(unit);
    s
}

/// Adds a line that gives a number after a label.
pub(crate) fn add_count(lines: &mut Vec<String>, label: &str, n: u128)
    ensures
        text_lines(final(lines)@) == text_lines(old(lines)@).push(label@ + decimal(n as nat)),
{
    add_line(lines, labelled(label, decimal_text(n).as_str()));
}

/// A number without decimal places.
pub(crate) fn fixed0_text(x: Binary64) -> (r: String)
    ensures
        r@ == fixed0(x),
{
    let mut s: String = String::new();
    push_fixed0(&mut s, x);
    assert(s@ =~= fixed0(x));
    s
}

/// Appends a number at the right end of a column.
pub(crate) fn push_decimal_right(s: &mut String, n: u128, width: usize)
    ensures
        final(s)@ == old(s)@ + right_aligned(decimal(n as nat), width as nat),
{
    push_right(s, decimal_text(n).as_str(), width);
}

/// Appends a number without decimal places at the right end of a column.
pub(crate) fn push_fixed0_right(s: &mut String, x: Binary64, width: usize)
    ensures
        final(s)@ == old(s)@ + right_aligned(fixed0(x), width as nat),
{
    push_right(s, fixed0_text(x).as_str(), width);
}

/// Appends a number with one decimal place at the right end of a column.
pub(crate) fn push_fixed1_right(s: &mut String, x: Binary64, width: usize)
    ensures
        final(s)@ == old(s)@ + right_aligned(fixed1(x), width as nat),
{
    let mut t: String = String::new();
    push_fixed1(&mut t, x);
    assert(t@ =~= fixed1(x));
    push_right(s, t.as_str(), width);
}

/// A list of strings says what each of them says, in their order.
pub proof fn law_every_line_is_said(list: Seq<String>, i: int)
    requires
        0 <= i < list.len(),
    ensures
        text_lines(list).len() == list.len(),
        text_lines(list)[i] == list[i]@,
{
}

} // verus!
