//! The decisions of the interactive client: what a typed line asks for.

use vstd::prelude::*;

use crate::bytes::string_of_chars;
use crate::parser::grammar::chars_of;

verus! {

/// Whether a character has the Unicode `White_Space` property, as
/// `char::is_whitespace` tests: the tab, line feed, vertical tab, form feed
/// and carriage return, the space, the next-line character, the no-break
/// space, the Ogham space mark, the spaces from the en quad to the hair
/// space, the line and paragraph separators, the narrow no-break space, the
/// medium mathematical space and the ideographic space.
pub open spec fn white_space(c: char) -> bool {
    let n = c as u32;
    ||| 0x9 <= n <= 0xD
    ||| n == 0x20
    ||| n == 0x85
    ||| n == 0xA0
    ||| n == 0x1680
    ||| 0x2000 <= n <= 0x200A
    ||| n == 0x2028
    ||| n == 0x2029
    ||| n == 0x202F
    ||| n == 0x205F
    ||| n == 0x3000
}

/// Whether a character is white space.
fn is_white_space(c: char) -> (r: bool)
    ensures
        r == white_space(c),
{
    let n = c as u32;
    (0x9 <= n && n <= 0xD) || n == 0x20 || n == 0x85 || n == 0xA0 || n == 0x1680 || (0x2000 <= n
        && n <= 0x200A) || n == 0x2028 || n == 0x2029 || n == 0x202F || n == 0x205F || n == 0x3000
}

/// The index of the first character at or after `i` that is not white space.
pub open spec fn skip_white(s: Seq<char>, i: nat) -> nat
    decreases s.len() - i,
{
    if i < s.len() && white_space(s[i as int]) {
        skip_white(s, i + 1)
    } else {
        i
    }
}

/// The end of the text once the white space before `j`, down to `low`, is dropped.
pub open spec fn drop_white(s: Seq<char>, j: nat, low: nat) -> nat
    decreases j,
{
    if j > low && white_space(s[j - 1]) {
        drop_white(s, (j - 1) as nat, low)
    } else {
        j
    }
}

/// The text without its leading and trailing white space.
pub open spec fn trimmed(s: Seq<char>) -> Seq<char> {
    let a = skip_white(s, 0);
    s.subrange(a as int, drop_white(s, s.len(), a) as int)
}

proof fn lemma_skip_white_bounds(s: Seq<char>, i: nat)
    requires
        i <= s.len(),
    ensures
        i <= skip_white(s, i) <= s.len(),
    decreases s.len() - i,
{
    if i < s.len() && white_space(s[i as int]) {
        lemma_skip_white_bounds(s, i + 1);
    }
}

proof fn lemma_drop_white_bounds(s: Seq<char>, j: nat, low: nat)
    requires
        low <= j,
    ensures
        low <= drop_white(s, j, low) <= j,
    decreases j,
{
    if j > low && white_space(s[j - 1]) {
        lemma_drop_white_bounds(s, (j - 1) as nat, low);
    }
}

/// The text without its leading and trailing white space.
pub fn trim_text(s: &str) -> (r: String)
    ensures
        r@ == trimmed(s@),
{
    let cs = chars_of(s);
    let n = cs.len();
    let mut a: usize = 0;
    proof {
        lemma_skip_white_bounds(s@, 0);
    }
    while a < n && is_white_space(cs[a])
        invariant
            n == cs@.len(),
            cs@ == s@,
            a <= n,
            skip_white(s@, a as nat) == skip_white(s@, 0),
        decreases n - a,
    {
        a = a + 1;
    }
    let mut b: usize = n;
    proof {
        lemma_drop_white_bounds(s@, n as nat, a as nat);
    }
    while b > a && is_white_space(cs[b - 1])
        invariant
            n == cs@.len(),
            cs@ == s@,
            a <= b <= n,
            a == skip_white(s@, 0),
            drop_white(s@, b as nat, a as nat) == drop_white(s@, n as nat, a as nat),
        decreases b,
    {
        b = b - 1;
    }
    let piece = vstd::slice::slice_subrange(cs.as_slice(), a, b);
    assert(piece@ =~= trimmed(s@));
    string_of_chars(piece)
}

proof fn lemma_skip_white_all(s: Seq<char>, i: nat)
    requires
        i <= s.len(),
    ensures
        forall|k: int| i <= k < skip_white(s, i) ==> white_space(#[trigger] s[k]),
    decreases s.len() - i,
{
    if i < s.len() && white_space(s[i as int]) {
        lemma_skip_white_all(s, i + 1);
    }
}

proof fn lemma_drop_white_all(s: Seq<char>, j: nat, low: nat)
    requires
        low <= j <= s.len(),
    ensures
        forall|k: int| drop_white(s, j, low) <= k < j ==> white_space(#[trigger] s[k]),
    decreases j,
{
    if j > low && white_space(s[j - 1]) {
        lemma_drop_white_all(s, (j - 1) as nat, low);
    }
}

/// Trimming removes exactly the white space at both ends: the trimmed text
/// is the part of the text between a run of white space at its start and a
/// run of white space at its end.
pub proof fn lemma_trim_removes_only_white_space(s: Seq<char>)
    ensures
        exists|a: int, b: int|
            {
                &&& 0 <= a <= b <= s.len()
                &&& trimmed(s) == s.subrange(a, b)
                &&& forall|k: int| 0 <= k < a ==> white_space(#[trigger] s[k])
                &&& forall|k: int| b <= k < s.len() ==> white_space(#[trigger] s[k])
            },
{
    lemma_skip_white_bounds(s, 0);
    let a = skip_white(s, 0);
    lemma_drop_white_bounds(s, s.len(), a);
    let b = drop_white(s, s.len(), a);
    lemma_skip_white_all(s, 0);
    lemma_drop_white_all(s, s.len(), a);
    assert(trimmed(s) == s.subrange(a as int, b as int));
}

/// A trimmed text is a contiguous part of the text, and neither starts nor
/// ends with white space.
pub proof fn lemma_trimmed(s: Seq<char>)
    ensures
        exists|a: int, b: int| 0 <= a <= b <= s.len() && trimmed(s) == s.subrange(a, b),
        trimmed(s).len() > 0 ==> !white_space(trimmed(s)[0]) && !white_space(
            trimmed(s)[trimmed(s).len() - 1],
        ),
{
    lemma_skip_white_bounds(s, 0);
    let a = skip_white(s, 0);
    lemma_drop_white_bounds(s, s.len(), a);
    let b = drop_white(s, s.len(), a);
    assert(trimmed(s) == s.subrange(a as int, b as int));
    if b > a {
        lemma_skip_white_stops(s, 0);
        lemma_drop_white_stops(s, s.len(), a);
    }
}

proof fn lemma_skip_white_stops(s: Seq<char>, i: nat)
    requires
        i <= s.len(),
    ensures
        skip_white(s, i) < s.len() ==> !white_space(s[skip_white(s, i) as int]),
    decreases s.len() - i,
{
    if i < s.len() && white_space(s[i as int]) {
        lemma_skip_white_stops(s, i + 1);
    }
}

proof fn lemma_drop_white_stops(s: Seq<char>, j: nat, low: nat)
    requires
        low <= j <= s.len(),
    ensures
        drop_white(s, j, low) > low ==> !white_space(s[drop_white(s, j, low) - 1]),
    decreases j,
{
    if j > low && white_space(s[j - 1]) {
        lemma_drop_white_stops(s, (j - 1) as nat, low);
    }
}

/// The character in upper case where it is an ASCII letter.
pub open spec fn upper_char(c: char) -> char {
    if 'a' <= c <= 'z' {
        ((c as u32) - 32) as char
    } else {
        c
    }
}

/// The text with its ASCII letters in upper case.
pub open spec fn upper_text(s: Seq<char>) -> Seq<char> {
    s.map_values(|c: char| upper_char(c))
}

/// Whether `s` begins with `prefix`.
pub open spec fn begins_with(s: Seq<char>, prefix: Seq<char>) -> bool {
    prefix.len() <= s.len() && s.take(prefix.len() as int) == prefix
}

/// What a line typed at the client asks for.
#[derive(Debug, Clone, Copy, PartialEq, Eq)]
pub enum CommandKind {
    /// Nothing: the line is blank.
    Skip,
    /// End the session.
    Exit,
    /// List the tables and their schemas.
    ShowTables,
    /// Run a query and print its rows.
    Query,
    /// Run an update and report how many records it touched.
    Update,
}

/// The word that ends a session.
pub open spec fn exit_word() -> Seq<char> {
    seq!['e', 'x', 'i', 't']
}

/// The command that lists the tables, in upper case.
pub open spec fn show_tables_words() -> Seq<char> {
    seq!['S', 'H', 'O', 'W', ' ', 'T', 'A', 'B', 'L', 'E', 'S']
}

/// The keyword that starts a query, in upper case.
pub open spec fn select_word() -> Seq<char> {
    seq!['S', 'E', 'L', 'E', 'C', 'T']
}

/// What a trimmed line asks for.
pub open spec fn command_kind(t: Seq<char>) -> CommandKind {
    if t.len() == 0 {
        CommandKind::Skip
    } else if begins_with(t, exit_word()) {
        CommandKind::Exit
    } else if upper_text(t) == show_tables_words() {
        CommandKind::ShowTables
    } else if begins_with(upper_text(t), select_word()) {
        CommandKind::Query
    } else {
        CommandKind::Update
    }
}

/// Whether the first characters of `t` spell `lower` (a word in lower-case
/// ASCII letters and spaces) in any mix of letter case.
pub open spec fn spells_any_case(t: Seq<char>, lower: Seq<char>, upper: Seq<char>) -> bool {
    &&& lower.len() == upper.len() <= t.len()
    &&& forall|i: int| 0 <= i < lower.len() ==> t[i] == lower[i] || t[i] == upper[i]
}

proof fn lemma_upper_spelled(t: Seq<char>, lower: Seq<char>, upper: Seq<char>, i: int)
    requires
        spells_any_case(t, lower, upper),
        0 <= i < lower.len(),
        upper_char(lower[i]) == upper[i],
        upper_char(upper[i]) == upper[i],
    ensures
        upper_text(t)[i] == upper[i],
{
    assert(upper_text(t)[i] == upper_char(t[i]));
}

/// What a typed line asks for does not depend on the letter case of its
/// keywords: a line that begins with `select` in any mix of case is a query,
/// one that is `show tables` in any mix of case lists the tables, and a line
/// that asks for a query begins with `select` in some mix of case. A blank
/// line is skipped and one that begins with `exit` ends the session.
pub proof fn lemma_command_kind_keywords(t: Seq<char>)
    ensures
        t.len() == 0 ==> command_kind(t) == CommandKind::Skip,
        t.len() >= 4 && t.take(4) == seq!['e', 'x', 'i', 't'] ==> command_kind(t) == CommandKind::Exit,
        spells_any_case(t, seq!['s', 'e', 'l', 'e', 'c', 't'], seq!['S', 'E', 'L', 'E', 'C', 'T'])
            ==> command_kind(t) == CommandKind::Query,
        command_kind(t) == CommandKind::Query ==> spells_any_case(
            t,
            seq!['s', 'e', 'l', 'e', 'c', 't'],
            seq!['S', 'E', 'L', 'E', 'C', 'T'],
        ),
        t.len() == 11 && spells_any_case(
            t,
            seq!['s', 'h', 'o', 'w', ' ', 't', 'a', 'b', 'l', 'e', 's'],
            seq!['S', 'H', 'O', 'W', ' ', 'T', 'A', 'B', 'L', 'E', 'S'],
        ) ==> command_kind(t) == CommandKind::ShowTables,
{
    let lo = seq!['s', 'e', 'l', 'e', 'c', 't'];
    let up = seq!['S', 'E', 'L', 'E', 'C', 'T'];
    if t.len() >= 4 && t.take(4) == seq!['e', 'x', 'i', 't'] {
        assert(t.take(4) == exit_word());
    }
    if spells_any_case(t, lo, up) {
        assert(upper_char('s') == 'S' && upper_char('e') == 'E' && upper_char('l') == 'L'
            && upper_char('c') == 'C' && upper_char('t') == 'T');
        assert forall|i: int| 0 <= i < 6 implies upper_text(t)[i] == up[i] by {
            lemma_upper_spelled(t, lo, up, i);
        }
        assert(upper_text(t).take(6) =~= select_word());
        assert(t[0] != 'e');
        assert(!begins_with(t, exit_word())) by {
            assert(t.take(4)[0] == t[0]);
        }
        assert(upper_text(t) != show_tables_words()) by {
            assert(upper_text(t)[1] == 'E');
        }
    }
    if command_kind(t) == CommandKind::Query {
        assert(begins_with(upper_text(t), select_word()));
        assert forall|i: int| 0 <= i < 6 implies t[i] == lo[i] || t[i] == up[i] by {
            assert(upper_text(t).take(6)[i] == select_word()[i]);
            assert(upper_text(t)[i] == upper_char(t[i]));
        }
    }
    let lo2 = seq!['s', 'h', 'o', 'w', ' ', 't', 'a', 'b', 'l', 'e', 's'];
    let up2 = seq!['S', 'H', 'O', 'W', ' ', 'T', 'A', 'B', 'L', 'E', 'S'];
    if t.len() == 11 && spells_any_case(t, lo2, up2) {
        assert(upper_char('s') == 'S' && upper_char('h') == 'H' && upper_char('o') == 'O'
            && upper_char('w') == 'W' && upper_char('t') == 'T' && upper_char('a') == 'A'
            && upper_char('b') == 'B' && upper_char('l') == 'L' && upper_char('e') == 'E');
        assert forall|i: int| 0 <= i < 11 implies upper_text(t)[i] == up2[i] by {
            lemma_upper_spelled(t, lo2, up2, i);
        }
        assert(upper_text(t) =~= show_tables_words());
        assert(!begins_with(t, exit_word())) by {
            assert(t.take(4)[0] == t[0]);
        }
    }
}

pub(crate) fn upper_chars(cs: &Vec<char>) -> (r: Vec<char>)
    ensures
        r@ == upper_text(cs@),
{
    let mut out: Vec<char> = Vec::new();
    let mut i: usize = 0;
    while i < cs.len()
        invariant
            i <= cs@.len(),
            out@ == upper_text(cs@.take(i as int)),
        decreases cs@.len() - i,
    {
        let c = cs[i];
        let u = if 'a' <= c && c <= 'z' {
            let code: u32 = (c as u32) - 32;
            proof {
                assert(code == (c as u32) - 32);
            }
            char_of_ascii(code)
        } else {
            c
        };
        out.push(u);
        proof {
            assert(cs@.take(i + 1) =~= cs@.take(i as int).push(c));
        }
        i = i + 1;
        assert(out@ =~= upper_text(cs@.take(i as int)));
    }
    assert(cs@.take(i as int) =~= cs@);
    out
}

fn char_of_ascii(code: u32) -> (c: char)
    requires
        code < 128,
    ensures
        c == code as char,
{
    let b: u8 = code as u8;
    b as char
}

fn begins_with_chars(s: &Vec<char>, prefix: &[char]) -> (r: bool)
    ensures
        r == begins_with(s@, prefix@),
{
    if prefix.len() > s.len() {
        return false;
    }
    let mut i: usize = 0;
    while i < prefix.len()
        invariant
            i <= prefix@.len(),
            prefix@.len() <= s@.len(),
            forall|k: int| 0 <= k < i ==> s@[k] == prefix@[k],
        decreases prefix@.len() - i,
    {
        if s[i] != prefix[i] {
            assert(s@.take(prefix@.len() as int)[i as int] != prefix@[i as int]);
            return false;
        }
        i = i + 1;
    }
    assert(s@.take(prefix@.len() as int) =~= prefix@);
    true
}

/// What a typed line asks for, with the command text it carries: the line
/// without its leading and trailing white space.
pub fn classify_command(line: &str) -> (r: (CommandKind, String))
    ensures
        r.1@ == trimmed(line@),
        r.0 == command_kind(trimmed(line@)),
{
    let t = trim_text(line);
    let cs = chars_of(t.as_str());
    if cs.len() == 0 {
        return (CommandKind::Skip, t);
    }
    let exit: [char; 4] = ['e', 'x', 'i', 't'];
    if begins_with_chars(&cs, &exit) {
        return (CommandKind::Exit, t);
    }
    let up = upper_chars(&cs);
    let show: [char; 11] = ['S', 'H', 'O', 'W', ' ', 'T', 'A', 'B', 'L', 'E', 'S'];
    let is_show = up.len() == 11 && begins_with_chars(&up, &show);
    proof {
        if up@.len() == 11 {
            assert(up@.take(11) =~= up@);
        }
    }
    if is_show {
        return (CommandKind::ShowTables, t);
    }
    let select: [char; 6] = ['S', 'E', 'L', 'E', 'C', 'T'];
    if begins_with_chars(&up, &select) {
        (CommandKind::Query, t)
    } else {
        (CommandKind::Update, t)
    }
}

/// What reading a line at the client's prompt gave.
pub enum InputEvent {
    /// A line of text.
    Line(String),
    /// The user interrupted the line (Ctrl-C).
    Interrupted,
    /// The input ended (Ctrl-D).
    EndOfInput,
}

/// What the client does next.
#[derive(Debug, Clone, PartialEq, Eq)]
pub enum ClientStep {
    /// Prompt again.
    Prompt,
    /// End the session.
    Stop,
    /// Run a command of that kind, with its text.
    Run(CommandKind, String),
}

/// The client's next step after reading at the prompt: an interrupted line
/// is dropped and the prompt shown again, the end of input ends the session,
/// and a line is classified: a blank one is dropped, `exit` ends the
/// session, and any other is run.
pub fn client_step(event: InputEvent) -> (r: ClientStep)
    ensures
        match event {
            InputEvent::Interrupted => r == ClientStep::Prompt,
            InputEvent::EndOfInput => r == ClientStep::Stop,
            InputEvent::Line(line) => match command_kind(trimmed(line@)) {
                CommandKind::Skip => r == ClientStep::Prompt,
                CommandKind::Exit => r == ClientStep::Stop,
                k => r matches ClientStep::Run(k2, t) && k2 == k && t@ == trimmed(line@),
            },
        },
{
    match event {
        InputEvent::Interrupted => ClientStep::Prompt,
        InputEvent::EndOfInput => ClientStep::Stop,
        InputEvent::Line(line) => {
            let (kind, text) = classify_command(line.as_str());
            match kind {
                CommandKind::Skip => ClientStep::Prompt,
                CommandKind::Exit => ClientStep::Stop,
                _ => ClientStep::Run(kind, text),
            }
        },
    }
}

} // verus!
