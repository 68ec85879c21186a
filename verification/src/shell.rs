use vstd::prelude::*;

use crate::misc::copy_range;

verus! {

/// A byte that ends a word of a command line: a space, a newline or a carriage return.
pub open spec fn is_word_separator(b: u8) -> bool {
    b == 32 || b == 10 || b == 13
}

/// The first separator of `input` at or after `i`, or the length of the input.
pub open spec fn spec_word_end(input: Seq<u8>, i: int) -> int
    decreases input.len() - i,
{
    if i >= input.len() {
        input.len() as int
    } else if is_word_separator(input[i]) {
        i
    } else {
        spec_word_end(input, i + 1)
    }
}

proof fn lemma_word_end_bounds(input: Seq<u8>, i: int)
    requires
        0 <= i <= input.len(),
    ensures
        i <= spec_word_end(input, i) <= input.len(),
    decreases input.len() - i,
{
    if i < input.len() && !is_word_separator(input[i]) {
        lemma_word_end_bounds(input, i + 1);
    }
}

/// The first word of `input` and what follows the separator after it.
pub open spec fn spec_next_word(input: Seq<u8>) -> (Seq<u8>, Seq<u8>) {
    let end = spec_word_end(input, 0);
    if end < input.len() {
        (input.subrange(0, end), input.subrange(end + 1, input.len() as int))
    } else {
        (input, Seq::empty())
    }
}

/// The words of `input`, split at each separator (two separators in a row give an empty word).
pub open spec fn spec_parse_words(input: Seq<u8>) -> Seq<Seq<u8>>
    decreases input.len(),
{
    if input.len() == 0 {
        Seq::empty()
    } else {
        let (word, rest) = spec_next_word(input);
        if rest.len() < input.len() {
            seq![word].add(spec_parse_words(rest))
        } else {
            seq![word]
        }
    }
}

/// An ASCII white-space byte: a space, a tab, a newline, a vertical tab, a form feed or a
/// carriage return.
pub open spec fn is_ascii_space(b: u8) -> bool {
    b == 32 || (9 <= b && b <= 13)
}

/// The length in bytes of the white-space character encoded at `i` in `s`, or 0 where none
/// is. The white-space characters are those of Unicode: U+0009 to U+000D, U+0020, U+0085,
/// U+00A0, U+1680, U+2000 to U+200A, U+2028, U+2029, U+202F, U+205F and U+3000.
pub open spec fn spec_space_len_at(s: Seq<u8>, i: int) -> int {
    if 0 <= i < s.len() && is_ascii_space(s[i]) {
        1
    } else if 0 <= i && i + 1 < s.len() && s[i] == 0xC2 && (s[i + 1] == 0x85 || s[i + 1] == 0xA0) {
        2
    } else if 0 <= i && i + 2 < s.len() && s[i] == 0xE1 && s[i + 1] == 0x9A && s[i + 2] == 0x80 {
        3
    } else if 0 <= i && i + 2 < s.len() && s[i] == 0xE2 && s[i + 1] == 0x80 && (
        (0x80 <= s[i + 2] && s[i + 2] <= 0x8A) || s[i + 2] == 0xA8 || s[i + 2] == 0xA9
            || s[i + 2] == 0xAF) {
        3
    } else if 0 <= i && i + 2 < s.len() && s[i] == 0xE2 && s[i + 1] == 0x81 && s[i + 2] == 0x9F {
        3
    } else if 0 <= i && i + 2 < s.len() && s[i] == 0xE3 && s[i + 1] == 0x80 && s[i + 2] == 0x80 {
        3
    } else {
        0
    }
}

/// The length in bytes of the white-space character that ends at `end` and begins at or
/// after `start`, or 0 where none does.
pub open spec fn spec_space_len_before(s: Seq<u8>, start: int, end: int) -> int {
    if start <= end - 1 && spec_space_len_at(s, end - 1) == 1 {
        1
    } else if start <= end - 2 && spec_space_len_at(s, end - 2) == 2 {
        2
    } else if start <= end - 3 && spec_space_len_at(s, end - 3) == 3 {
        3
    } else {
        0
    }
}

/// The first position at or after `i` where no white-space character begins, or the length.
pub open spec fn spec_trim_start(s: Seq<u8>, i: int) -> int
    decreases s.len() - i,
{
    if i < 0 || i >= s.len() {
        s.len() as int
    } else if spec_space_len_at(s, i) > 0 {
        spec_trim_start(s, i + spec_space_len_at(s, i))
    } else {
        i
    }
}

/// The position after the last character before `end` that is no white space, or `start`.
pub open spec fn spec_trim_end(s: Seq<u8>, start: int, end: int) -> int
    decreases end - start,
{
    if end <= start {
        start
    } else if spec_space_len_before(s, start, end) > 0 {
        spec_trim_end(s, start, end - spec_space_len_before(s, start, end))
    } else {
        end
    }
}

/// The UTF-8 text `s` without the white-space characters at its two ends.
pub open spec fn spec_trim(s: Seq<u8>) -> Seq<u8> {
    let start = spec_trim_start(s, 0);
    s.subrange(start, spec_trim_end(s, start, s.len() as int))
}

/// The first redirection sign (`<` or `>`) of `input` at or after `i`, or the length.
pub open spec fn spec_first_redirect(input: Seq<u8>, i: int) -> int
    decreases input.len() - i,
{
    if i >= input.len() {
        input.len() as int
    } else if input[i] == 60 || input[i] == 62 {
        i
    } else {
        spec_first_redirect(input, i + 1)
    }
}

/// A continuation byte of UTF-8: `0b10xx_xxxx`.
pub open spec fn is_continuation(b: u8) -> bool {
    0x80 <= b && b <= 0xBF
}

/// The length in bytes of the well-formed UTF-8 character that begins at `i` in `s`, or 0
/// where none does (no overlong form, no surrogate, nothing above U+10FFFF).
pub open spec fn spec_utf8_char_len(s: Seq<u8>, i: int) -> int {
    if i < 0 || i >= s.len() {
        0
    } else if s[i] < 0x80 {
        1
    } else if 0xC2 <= s[i] && s[i] <= 0xDF {
        if i + 1 < s.len() && is_continuation(s[i + 1]) { 2 } else { 0 }
    } else if 0xE0 <= s[i] && s[i] <= 0xEF {
        if i + 2 < s.len() && is_continuation(s[i + 1]) && is_continuation(s[i + 2])
            && (s[i] != 0xE0 || s[i + 1] >= 0xA0) && (s[i] != 0xED || s[i + 1] <= 0x9F) {
            3
        } else {
            0
        }
    } else if 0xF0 <= s[i] && s[i] <= 0xF4 {
        if i + 3 < s.len() && is_continuation(s[i + 1]) && is_continuation(s[i + 2])
            && is_continuation(s[i + 3]) && (s[i] != 0xF0 || s[i + 1] >= 0x90)
            && (s[i] != 0xF4 || s[i + 1] <= 0x8F) {
            4
        } else {
            0
        }
    } else {
        0
    }
}

/// The bytes of `s` from `i` on are a sequence of well-formed UTF-8 characters.
pub open spec fn spec_valid_utf8_from(s: Seq<u8>, i: int) -> bool
    decreases s.len() - i,
{
    if i < 0 {
        false
    } else if i >= s.len() {
        true
    } else if spec_utf8_char_len(s, i) > 0 {
        spec_valid_utf8_from(s, i + spec_utf8_char_len(s, i))
    } else {
        false
    }
}

/// `s` is well-formed UTF-8.
pub open spec fn spec_valid_utf8(s: Seq<u8>) -> bool {
    spec_valid_utf8_from(s, 0)
}

/// The number of characters that begin before byte `j` of `s`: the bytes before `j` that are
/// no continuation bytes.
pub open spec fn spec_char_count(s: Seq<u8>, j: int) -> int
    decreases j,
{
    if j <= 0 {
        0
    } else {
        spec_char_count(s, j - 1) + if is_continuation(s[j - 1]) { 0int } else { 1int }
    }
}

/// Where the name of a redirection begins: just at the character index of the sign for
/// `<`, one past it for `>` (the index counts characters, the slice counts bytes).
pub open spec fn spec_redirect_name_start(input: Seq<u8>) -> int {
    let j = spec_first_redirect(input, 0);
    if input[j] == 60 {
        spec_char_count(input, j)
    } else {
        spec_char_count(input, j) + 1
    }
}

/// The command lines that `parse_command` takes: well-formed UTF-8 whose redirection name,
/// where there is one, begins at a character boundary.
pub open spec fn parse_command_accepts(input: Seq<u8>) -> bool {
    &&& spec_valid_utf8(input)
    &&& spec_first_redirect(input, 0) < input.len() ==> spec_valid_utf8(
        input.subrange(spec_redirect_name_start(input), input.len() as int),
    )
}

/// A command of a command line: its words, and the files that its input comes from and its
/// output goes to.
pub struct Command {
    pub words: Vec<Vec<u8>>,
    pub input: Option<Vec<u8>>,
    pub output: Option<Vec<u8>>,
    pub append: bool,
}

/// The words of a command as sequences of bytes.
pub open spec fn words_view(words: Seq<Vec<u8>>) -> Seq<Seq<u8>> {
    Seq::new(words.len(), |i: int| words[i]@)
}

/// The bytes held by an optional name.
pub open spec fn name_view(name: Option<Vec<u8>>) -> Option<Seq<u8>> {
    match name {
        Some(v) => Some(v@),
        None => None,
    }
}

/// Splits the first word off `input`: the bytes before the first separator, and those after it.
pub fn get_next_word(input: &[u8]) -> (r: (Vec<u8>, Vec<u8>))
    ensures
        r.0@ == spec_next_word(input@).0,
        r.1@ == spec_next_word(input@).1,
{
    let len = input.len();
    let mut i: usize = 0;
    while i < len
        invariant
            0 <= i <= len,
            len == input@.len(),
            spec_word_end(input@, 0) == spec_word_end(input@, i as int),
        decreases len - i,
    {
        if input[i] == 32 || input[i] == 10 || input[i] == 13 {
            return (copy_range(input, 0, i), copy_range(input, i + 1, len));
        }
        i += 1;
    }
    let all = copy_range(input, 0, len);
    assert(all@ =~= input@);
    (all, Vec::new())
}

/// The words of `input`, split at spaces, newlines and carriage returns.
pub fn parse_words(input: &[u8]) -> (r: Vec<Vec<u8>>)
    ensures
        words_view(r@) == spec_parse_words(input@),
{
    let mut words: Vec<Vec<u8>> = Vec::new();
    let mut next: Vec<u8> = copy_range(input, 0, input.len());
    assert(next@ =~= input@);
    while next.len() > 0
        invariant
            words_view(words@) + spec_parse_words(next@) == spec_parse_words(input@),
        decreases next@.len(),
    {
        let (word, remain) = get_next_word(next.as_slice());
        proof {
            lemma_word_end_bounds(next@, 0);
            let (w, rest) = spec_next_word(next@);
            assert(rest.len() < next@.len());
            assert(words_view(words@.push(word)) =~= words_view(words@).push(word@));
            assert(spec_parse_words(next@) == seq![w].add(spec_parse_words(rest)));
            assert(words_view(words@).push(word@) + spec_parse_words(rest)
                =~= words_view(words@) + (seq![w].add(spec_parse_words(rest))));
        }
        words.push(word);
        next = remain;
    }
    assert(spec_parse_words(next@) =~= Seq::<Seq<u8>>::empty());
    assert(words_view(words@) + Seq::<Seq<u8>>::empty() =~= words_view(words@));
    words
}

/// The length of the white-space character encoded at `i` in `s`, or 0.
fn space_len_at(s: &[u8], i: usize) -> (r: usize)
    requires
        i < s@.len(),
    ensures
        r == spec_space_len_at(s@, i as int),
{
    let len = s.len();
    let b = s[i];
    if b == 32 || (9 <= b && b <= 13) {
        1
    } else if len - i > 1 && b == 0xC2 && (s[i + 1] == 0x85 || s[i + 1] == 0xA0) {
        2
    } else if len - i > 2 && b == 0xE1 && s[i + 1] == 0x9A && s[i + 2] == 0x80 {
        3
    } else if len - i > 2 && b == 0xE2 && s[i + 1] == 0x80 && (
        (0x80 <= s[i + 2] && s[i + 2] <= 0x8A) || s[i + 2] == 0xA8 || s[i + 2] == 0xA9
            || s[i + 2] == 0xAF) {
        3
    } else if len - i > 2 && b == 0xE2 && s[i + 1] == 0x81 && s[i + 2] == 0x9F {
        3
    } else if len - i > 2 && b == 0xE3 && s[i + 1] == 0x80 && s[i + 2] == 0x80 {
        3
    } else {
        0
    }
}

/// The length of the white-space character that ends at `end` and begins at or after
/// `start`, or 0.
fn space_len_before(s: &[u8], start: usize, end: usize) -> (r: usize)
    requires
        start < end <= s@.len(),
    ensures
        r == spec_space_len_before(s@, start as int, end as int),
{
    if space_len_at(s, end - 1) == 1 {
        1
    } else if end - start >= 2 && space_len_at(s, end - 2) == 2 {
        2
    } else if end - start >= 3 && space_len_at(s, end - 3) == 3 {
        3
    } else {
        0
    }
}

/// The UTF-8 text `s` without the white-space characters at its two ends.
pub fn trim(s: &[u8]) -> (r: Vec<u8>)
    ensures
        r@ == spec_trim(s@),
{
    let len = s.len();
    let mut start: usize = 0;
    while start < len && space_len_at(s, start) > 0
        invariant
            0 <= start <= len,
            len == s@.len(),
            spec_trim_start(s@, 0) == spec_trim_start(s@, start as int),
        decreases len - start,
    {
        start = start + space_len_at(s, start);
    }
    let mut end: usize = len;
    while end > start && space_len_before(s, start, end) > 0
        invariant
            start <= end <= len,
            len == s@.len(),
            spec_trim_start(s@, 0) == start,
            spec_trim_end(s@, start as int, len as int) == spec_trim_end(s@, start as int, end as int),
        decreases end - start,
    {
        end = end - space_len_before(s, start, end);
    }
    copy_range(s, start, end)
}

/// The length of the well-formed UTF-8 character that begins at `i` in `s`, or 0.
fn utf8_char_len(s: &[u8], i: usize) -> (r: usize)
    requires
        i < s@.len(),
    ensures
        r == spec_utf8_char_len(s@, i as int),
{
    let len = s.len();
    let b = s[i];
    if b < 0x80 {
        1
    } else if 0xC2 <= b && b <= 0xDF {
        if len - i > 1 && 0x80 <= s[i + 1] && s[i + 1] <= 0xBF { 2 } else { 0 }
    } else if 0xE0 <= b && b <= 0xEF {
        if len - i > 2 && 0x80 <= s[i + 1] && s[i + 1] <= 0xBF && 0x80 <= s[i + 2]
            && s[i + 2] <= 0xBF && (b != 0xE0 || s[i + 1] >= 0xA0) && (b != 0xED || s[i + 1]
            <= 0x9F) {
            3
        } else {
            0
        }
    } else if 0xF0 <= b && b <= 0xF4 {
        if len - i > 3 && 0x80 <= s[i + 1] && s[i + 1] <= 0xBF && 0x80 <= s[i + 2]
            && s[i + 2] <= 0xBF && 0x80 <= s[i + 3] && s[i + 3] <= 0xBF && (b != 0xF0 || s[i
            + 1] >= 0x90) && (b != 0xF4 || s[i + 1] <= 0x8F) {
            4
        } else {
            0
        }
    } else {
        0
    }
}

/// Whether the bytes of `s` are well-formed UTF-8.
pub fn is_valid_utf8(s: &[u8]) -> (r: bool)
    ensures
        r == spec_valid_utf8(s@),
{
    let len = s.len();
    let mut i: usize = 0;
    while i < len
        invariant
            0 <= i <= len,
            len == s@.len(),
            spec_valid_utf8(s@) == spec_valid_utf8_from(s@, i as int),
        decreases len - i,
    {
        let n = utf8_char_len(s, i);
        if n == 0 {
            return false;
        }
        i = i + n;
    }
    true
}

/// Parses a command line: its words, with the input redirected from the file named after a
/// `<` or the output to the file named after a `>`, whichever comes first. The words are
/// those before the sign; the name is the trimmed text from the character index of the sign
/// (one past it for `>`), taken as a byte position. So on ASCII lines the name taken for the
/// input begins with the `<` itself.
pub fn parse_command(input: &[u8]) -> (r: Vec<Command>)
    requires
        parse_command_accepts(input@),
    ensures
        r@.len() == 1,
        !r@[0].append,
        ({
            let j = spec_first_redirect(input@, 0);
            let i = spec_char_count(input@, j);
            let c = r@[0];
            if j < input@.len() && input@[j] == 60 {
                &&& words_view(c.words@) == spec_parse_words(input@.subrange(0, i))
                &&& name_view(c.input) == Some(spec_trim(input@.subrange(i, input@.len() as int)))
                &&& c.output is None
            } else if j < input@.len() {
                &&& words_view(c.words@) == spec_parse_words(input@.subrange(0, i))
                &&& c.input is None
                &&& name_view(c.output) == Some(spec_trim(input@.subrange(i + 1, input@.len() as int)))
            } else {
                &&& words_view(c.words@) == spec_parse_words(input@)
                &&& c.input is None
                &&& c.output is None
            }
        }),
{
    let mut commands: Vec<Command> = Vec::new();
    let len = input.len();
    let mut j: usize = 0;
    let mut i: usize = 0;
    while j < len
        invariant
            0 <= i <= j <= len,
            len == input@.len(),
            commands@.len() == 0,
            i == spec_char_count(input@, j as int),
            spec_first_redirect(input@, 0) == spec_first_redirect(input@, j as int),
        decreases len - j,
    {
        if input[j] == 60 {
            let head = copy_range(input, 0, i);
            let tail = copy_range(input, i, len);
            commands.push(Command {
                words: parse_words(head.as_slice()),
                input: Some(trim(tail.as_slice())),
                output: None,
                append: false,
            });
            return commands;
        } else if input[j] == 62 {
            let head = copy_range(input, 0, i);
            let tail = copy_range(input, i + 1, len);
            commands.push(Command {
                words: parse_words(head.as_slice()),
                input: None,
                output: Some(trim(tail.as_slice())),
                append: false,
            });
            return commands;
        }
        if !(0x80 <= input[j] && input[j] <= 0xBF) {
            i = i + 1;
        }
        j += 1;
    }
    commands.push(Command {
        words: parse_words(input),
        input: None,
        output: None,
        append: false,
    });
    commands
}

/// Whether `parse_command` takes `input`.
pub fn command_line_accepted(input: &[u8]) -> (r: bool)
    ensures
        r == parse_command_accepts(input@),
{
    if !is_valid_utf8(input) {
        return false;
    }
    let len = input.len();
    let mut j: usize = 0;
    let mut i: usize = 0;
    while j < len
        invariant
            0 <= i <= j <= len,
            len == input@.len(),
            i == spec_char_count(input@, j as int),
            spec_valid_utf8(input@),
            spec_first_redirect(input@, 0) == spec_first_redirect(input@, j as int),
        decreases len - j,
    {
        if input[j] == 60 || input[j] == 62 {
            let start = if input[j] == 60 { i } else { i + 1 };
            let tail = copy_range(input, start, len);
            return is_valid_utf8(tail.as_slice());
        }
        if !(0x80 <= input[j] && input[j] <= 0xBF) {
            i = i + 1;
        }
        j += 1;
    }
    true
}

/// Writes `path` followed by `command` at the start of `fullpath` and returns those bytes.
pub fn substitute_path(fullpath: &mut Vec<u8>, path: &[u8], command: &[u8]) -> (r: Vec<u8>)
    requires
        path@.len() + command@.len() <= old(fullpath)@.len(),
    ensures
        r@ == path@ + command@,
        final(fullpath)@.len() == old(fullpath)@.len(),
        final(fullpath)@.subrange(0, (path@.len() + command@.len()) as int) == path@ + command@,
        final(fullpath)@.subrange((path@.len() + command@.len()) as int, old(fullpath)@.len() as int)
            == old(fullpath)@.subrange((path@.len() + command@.len()) as int, old(fullpath)@.len() as int),
{
    let flen = fullpath.len();
    let path_len = path.len();
    let command_len = command.len();
    let total = path_len + command_len;
    let ghost full0 = fullpath@;
    let ghost joined = path@ + command@;
    let mut i: usize = 0;
    while i < total
        invariant
            total == path_len + command_len,
            0 <= i <= path_len + command_len,
            path_len == path@.len(),
            command_len == command@.len(),
            path_len + command_len <= full0.len(),
            joined == path@ + command@,
            fullpath@.len() == full0.len(),
            forall|k: int| 0 <= k < i ==> fullpath@[k] == joined[k],
            forall|k: int| i <= k < full0.len() ==> fullpath@[k] == full0[k],
        decreases total - i,
    {
        let b = if i < path_len { path[i] } else { command[i - path_len] };
        fullpath.set(i, b);
        i += 1;
    }
    let out = copy_range(fullpath.as_slice(), 0, total);
    assert(out@ =~= joined);
    assert(fullpath@.subrange(0, (path_len + command_len) as int) =~= joined);
    assert(fullpath@.subrange((path_len + command_len) as int, full0.len() as int)
        =~= full0.subrange((path_len + command_len) as int, full0.len() as int));
    out
}

/// What the shell does with a parsed command line.
#[derive(Clone, Copy, PartialEq, Eq, Structural, Debug)]
pub enum ShellAction {
    /// Nothing to run: prompt again.
    Skip,
    /// The line asks the shell to stop.
    Exit,
    /// Run the commands.
    Run,
}

/// The word that stops the shell.
pub open spec fn exit_word() -> Seq<u8> {
    seq![101u8, 120, 105, 116]
}

/// What the shell does with the parsed commands: nothing for an empty line, stop for `exit`,
/// or run them.
pub fn shell_action(commands: &Vec<Command>) -> (r: ShellAction)
    ensures
        r == if commands@.len() == 0 || commands@[0].words@.len() == 0 || commands@[0].words@[0]@.len() == 0 {
            ShellAction::Skip
        } else if commands@[0].words@[0]@ == exit_word() {
            ShellAction::Exit
        } else {
            ShellAction::Run
        },
{
    if commands.len() == 0 || commands[0].words.len() == 0 || commands[0].words[0].len() == 0 {
        return ShellAction::Skip;
    }
    let first = &commands[0].words[0];
    let exit: [u8; 4] = [101u8, 120u8, 105u8, 116u8];
    let same = crate::misc::bytes_equal(first.as_slice(), exit.as_slice());
    assert(exit@ =~= exit_word());
    if same { ShellAction::Exit } else { ShellAction::Run }
}

} // verus!
