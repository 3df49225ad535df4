use vstd::prelude::*;

verus! {

pub open spec fn spec_is_opening_boundary(c: char) -> bool {
    c == '(' || c == '[' || c == '{' || c == '\u{AB}' || c == '\u{201C}' || c == '\u{201E}'
}

pub open spec fn spec_is_closing_boundary(c: char) -> bool {
    c == ')' || c == ']' || c == '}' || c == '\u{BB}' || c == '\u{201D}' || c == '\u{201C}'
}

pub open spec fn spec_is_clause_separator(c: char) -> bool {
    c == ',' || c == ';' || c == ':' || c == '\u{2014}' || c == '-'
}

pub fn is_opening_boundary_punctuation(ch: char) -> (r: bool)
    ensures
        r == spec_is_opening_boundary(ch),
{
    ch == '(' || ch == '[' || ch == '{' || ch == '\u{AB}' || ch == '\u{201C}' || ch == '\u{201E}'
}

pub fn is_closing_boundary_punctuation(ch: char) -> (r: bool)
    ensures
        r == spec_is_closing_boundary(ch),
{
    ch == ')' || ch == ']' || ch == '}' || ch == '\u{BB}' || ch == '\u{201D}' || ch == '\u{201C}'
}

pub fn is_clause_separator(ch: char) -> (r: bool)
    ensures
        r == spec_is_clause_separator(ch),
{
    ch == ',' || ch == ';' || ch == ':' || ch == '\u{2014}' || ch == '-'
}

} // verus!
