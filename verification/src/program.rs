//! The program that runs the default agent, and what is named after it.

use crate::text;
use vstd::prelude::*;
use vstd::string::*;

verus! {

/// The plain agent of the default program: it has the tools that are built in, and nothing else. A
/// plain agent is named after the program that runs it.
pub const PLAIN_AGENT: &'static str = "claude_plain";

/// The default program.
pub open spec fn program() -> Seq<char> {
    text::before_char(PLAIN_AGENT@, '_')
}

/// The directory in which the default program keeps its settings.
pub open spec fn settings_dir() -> Seq<char> {
    "."@ + program()
}

/// A small letter as a capital.
pub open spec fn capital(c: char) -> char {
    if 'a' <= c <= 'z' {
        ((c as u8) - 32) as char
    } else {
        c
    }
}

/// What the default program is called in a table.
pub open spec fn title() -> Seq<char> {
    seq![capital(program()[0])] + program().subrange(1, program().len() as int) + " Code"@
}

/// The default program is named by small letters.
pub proof fn lemma_program()
    ensures
        program().len() == 6,
        PLAIN_AGENT@ == program() + "_plain"@,
        forall|i: int| 0 <= i < program().len() ==> 'a' <= #[trigger] program()[i] <= 'z',
{
    reveal_strlit("claude_plain");
    reveal_strlit("_plain");
    text::lemma_first_place_is(PLAIN_AGENT@, '_', 6);
    assert(program() =~= PLAIN_AGENT@.subrange(0, 6));
    assert(PLAIN_AGENT@ =~= program() + "_plain"@);
}

/// The name of the default program.
pub fn program_name() -> (r: String)
    ensures
        r@ == program(),
{
    text::string_of(&text::cut_before(&text::chars_of(PLAIN_AGENT), '_'))
}

/// The name of the directory in which the default program keeps its settings.
pub fn settings_dir_name() -> (r: String)
    ensures
        r@ == settings_dir(),
{
    text::join2(".", program_name().as_str())
}

fn capital_of(c: char) -> (r: char)
    ensures
        r == capital(c),
{
    if c >= 'a' && c <= 'z' {
        (c as u8 - 32) as char
    } else {
        c
    }
}

/// What the default program is called in a table.
pub fn title_text() -> (r: String)
    ensures
        r@ == title(),
{
    proof {
        lemma_program();
    }
    let v = text::cut_before(&text::chars_of(PLAIN_AGENT), '_');
    let mut s = String::new();
    s.push(capital_of(v[0]));
    let rest = text::string_of(&text::cut(&v, 1, v.len()));
    s.append(rest.as_str());
    s.append(" Code");
    assert(s@ =~= title());
    s
}

/// The name that a text gives to something of the default program: the text's beginning, the
/// program's name, and the text's end.
pub fn named(before: &str, after: &str) -> (r: String)
    ensures
        r@ == before@ + program() + after@,
{
    text::join3(before, program_name().as_str(), after)
}

} // verus!
