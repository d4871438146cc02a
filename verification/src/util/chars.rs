//! Character classes used by the word and bracket scans.

use vstd::prelude::*;

verus! {

/// Whether Unicode classes `c` as alphabetic or numeric, as
/// `char::is_alphanumeric` decides it.
pub uninterp spec fn alphanumeric(c: char) -> bool;

/// Whether Unicode classes `c` as white space, as `char::is_whitespace`
/// decides it.
pub uninterp spec fn whitespace(c: char) -> bool;

/// Whether `c` is a control character, as `char::is_control` decides it.
pub uninterp spec fn control(c: char) -> bool;

/// `char::is_alphanumeric`: decided by the character alone.
pub assume_specification[ char::is_alphanumeric ](c: char) -> (b: bool)
    ensures
        b == alphanumeric(c),
;

/// `char::is_whitespace`: decided by the character alone.
pub assume_specification[ char::is_whitespace ](c: char) -> (b: bool)
    ensures
        b == whitespace(c),
;

/// `char::is_control`: decided by the character alone.
pub assume_specification[ char::is_control ](c: char) -> (b: bool)
    ensures
        b == control(c),
;

pub open spec fn spec_is_opening_indent(ch: char) -> bool {
    ch == '[' || ch == '(' || ch == '<' || ch == '{'
}

pub open spec fn spec_is_closing_indent(ch: char) -> bool {
    ch == ']' || ch == ')' || ch == '>' || ch == '}'
}

pub open spec fn spec_is_word_forming(ch: char) -> bool {
    alphanumeric(ch) || ch == '_'
}

pub open spec fn spec_is_newline(ch: char) -> bool {
    ch == '\n'
}

pub open spec fn spec_is_not_newline(ch: char) -> bool {
    ch != '\n'
}

pub open spec fn spec_is_non_newline_whitespace(ch: char) -> bool {
    whitespace(ch) && ch != '\n'
}

/// One of the four opening brackets.
pub fn is_opening_indent(ch: char) -> (r: bool)
    ensures
        r == spec_is_opening_indent(ch),
{
    ch == '[' || ch == '(' || ch == '<' || ch == '{'
}

/// One of the four closing brackets.
pub fn is_closing_indent(ch: char) -> (r: bool)
    ensures
        r == spec_is_closing_indent(ch),
{
    ch == ']' || ch == ')' || ch == '>' || ch == '}'
}

/// Alphanumeric, or an underscore.
pub fn is_word_forming(ch: char) -> (r: bool)
    ensures
        r == spec_is_word_forming(ch),
{
    ch.is_alphanumeric() || ch == '_'
}

pub fn is_newline(ch: char) -> (r: bool)
    ensures
        r == spec_is_newline(ch),
{
    ch == '\n'
}

pub fn is_not_newline(ch: char) -> (r: bool)
    ensures
        r == spec_is_not_newline(ch),
{
    ch != '\n'
}

/// White space other than the line feed.
pub fn is_non_newline_whitespace(ch: char) -> (r: bool)
    ensures
        r == spec_is_non_newline_whitespace(ch),
{
    ch.is_whitespace() && ch != '\n'
}

} // verus!
