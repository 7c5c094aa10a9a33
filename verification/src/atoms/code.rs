//! The colouring of a listing: a reading aid for code already known to compile, not a parser.

use vstd::prelude::*;

use crate::text::{chars_of, push_text};

verus! {

/// Whether a character is a letter or a number, in the sense of `char::is_alphanumeric`.
pub uninterp spec fn alphanumeric(c: char) -> bool;

/// `char::is_alphanumeric`: the answer depends on the character alone. Of the first hundred and
/// twenty-eight, the letters and the ten digits are, and the rest are not; which of the others are
/// is Unicode's to say, and is left to the name.
#[verifier::external_body]
fn is_alphanumeric(c: char) -> (b: bool)
    ensures
        b == alphanumeric(c),
        (c as u32) < 128 ==> b == ascii_alphanumeric(c),
{
    c.is_alphanumeric()
}

/// The letters and digits of the first hundred and twenty-eight characters.
pub open spec fn ascii_alphanumeric(c: char) -> bool {
    upper(c) || digit(c) || 97 <= c as u32 <= 122
}

/// An upper-case letter of the first hundred and twenty-eight characters.
pub open spec fn upper(c: char) -> bool {
    65 <= c as u32 <= 90
}

/// A decimal digit.
pub open spec fn digit(c: char) -> bool {
    48 <= c as u32 <= 57
}

/// The four distinctions a listing makes.
#[derive(Clone, Copy, PartialEq, Eq, Structural, Debug)]
pub enum Code {
    Text,
    Comment,
    Name,
    Literal,
}

impl Code {
    pub open spec fn spec_name(self) -> Seq<char> {
        match self {
            Code::Text => "--code-text"@,
            Code::Comment => "--code-comment"@,
            Code::Name => "--code-name"@,
            Code::Literal => "--code-literal"@,
        }
    }

    /// The property its colour is published under.
    pub fn name(self) -> (s: &'static str)
        ensures
            s@ == self.spec_name(),
    {
        match self {
            Code::Text => "--code-text",
            Code::Comment => "--code-comment",
            Code::Name => "--code-name",
            Code::Literal => "--code-literal",
        }
    }
}

/// One run of code that shares a colour.
pub struct Token {
    pub i: usize,
    pub text: String,
    pub style: Code,
}

/// A run and its colour, as they read.
#[verifier::ext_equal]
pub struct Run {
    pub text: Seq<char>,
    pub style: Code,
}

/// What a run says.
pub fn token_text(t: &Token) -> (s: &str)
    ensures
        s@ == t.text@,
{
    t.text.as_str()
}

/// The declaration a run is coloured with.
pub fn token_style(t: &Token) -> (s: String)
    ensures
        s@ == "color:var("@ + t.style.spec_name() + ")"@,
{
    let mut s = "color:var(".to_owned();
    push_text(&mut s, t.style.name());
    push_text(&mut s, ")");
    s
}

/// A character a constant's name may hold.
pub open spec fn shouted(c: char) -> bool {
    upper(c) || digit(c) || c == '_'
}

/// What a word is, where that is worth a colour: a constant is all capitals, digits and
/// underscores with a capital among them, and a type begins with a capital.
pub open spec fn spec_classify(word: Seq<char>) -> Option<Code> {
    if word.len() == 0 {
        None
    } else if (forall|i: int| 0 <= i < word.len() ==> shouted(#[trigger] word[i])) && (exists|i: int|
        0 <= i < word.len() && upper(#[trigger] word[i])) {
        Some(Code::Literal)
    } else if upper(word[0]) {
        Some(Code::Name)
    } else {
        None
    }
}

/// What a word is, where that is worth a colour.
fn classify(word: &Vec<char>) -> (style: Option<Code>)
    ensures
        style == spec_classify(word@),
{
    if word.len() == 0 {
        return None;
    }
    let mut all = true;
    let mut any = false;
    let mut i: usize = 0;
    while i < word.len()
        invariant
            i <= word@.len(),
            all <==> forall|j: int| 0 <= j < i ==> shouted(#[trigger] word@[j]),
            any <==> exists|j: int| 0 <= j < i && upper(#[trigger] word@[j]),
        decreases word@.len() - i,
    {
        let c: u32 = word[i] as u32;
        let big: bool = 65 <= c && c <= 90;
        let number: bool = 48 <= c && c <= 57;
        let score: bool = word[i] == '_';
        if !(big || number || score) {
            assert(!shouted(word@[i as int]));
            all = false;
        }
        if big {
            any = true;
        }
        i += 1;
    }
    let first: u32 = word[0] as u32;
    if all && any {
        Some(Code::Literal)
    } else if 65 <= first && first <= 90 {
        Some(Code::Name)
    } else {
        None
    }
}

/// Where a listing stands part-way along a line: the runs so far, the word being read, and the
/// plain run before it.
#[verifier::ext_equal]
pub struct Scan {
    pub runs: Seq<Run>,
    pub word: Seq<char>,
    pub plain: Seq<char>,
}

/// The runs with one more, where there is anything in it.
pub open spec fn with_run(runs: Seq<Run>, text: Seq<char>, style: Code) -> Seq<Run> {
    if text.len() > 0 {
        runs.push(Run { text, style })
    } else {
        runs
    }
}

/// A word ends: where it is worth a colour, the plain run before it closes and the word goes out on
/// its own.
pub open spec fn flushed(s: Scan) -> Scan {
    match spec_classify(s.word) {
        None => s,
        Some(style) => Scan {
            runs: with_run(with_run(s.runs, s.plain, Code::Text), s.word, style),
            word: Seq::empty(),
            plain: Seq::empty(),
        },
    }
}

/// One character further along.
pub open spec fn scanned(s: Scan, c: char) -> Scan {
    if alphanumeric(c) || c == '_' {
        Scan { word: s.word.push(c), ..s }
    } else {
        let f = flushed(s);
        Scan { runs: f.runs, word: Seq::empty(), plain: (f.plain + f.word).push(c) }
    }
}

/// The first `n` characters of a line read.
pub open spec fn scanned_to(runs: Seq<Run>, line: Seq<char>, n: int) -> Scan
    decreases n,
{
    if n <= 0 {
        Scan { runs, word: Seq::empty(), plain: Seq::empty() }
    } else {
        scanned(scanned_to(runs, line, n - 1), line[n - 1])
    }
}

/// A stretch of code read to its end.
pub open spec fn with_code(runs: Seq<Run>, line: Seq<char>) -> Seq<Run> {
    let f = flushed(scanned_to(runs, line, line.len() as int));
    with_run(f.runs, f.plain + f.word, Code::Text)
}

/// Where a line's comment begins: its first two slashes in a row, or its end.
pub open spec fn comment_at(line: Seq<char>, k: int) -> int
    decreases line.len() - k,
{
    if k + 1 >= line.len() {
        line.len() as int
    } else if line[k] == '/' && line[k + 1] == '/' {
        k
    } else {
        comment_at(line, k + 1)
    }
}

/// One line read: its code, and the comment after it.
pub open spec fn with_line(runs: Seq<Run>, line: Seq<char>) -> Seq<Run> {
    let at = comment_at(line, 0);
    with_run(
        with_code(runs, line.subrange(0, at)),
        line.subrange(at, line.len() as int),
        Code::Comment,
    )
}

/// Where the line that starts at `from` ends: its line feed, or the end of the text.
pub open spec fn line_end(s: Seq<char>, from: int) -> int
    decreases s.len() - from,
{
    if from >= s.len() {
        s.len() as int
    } else if s[from] == '\n' {
        from
    } else {
        line_end(s, from + 1)
    }
}

/// A line without the carriage return its line feed came with.
pub open spec fn uncarried(line: Seq<char>) -> Seq<char> {
    if line.len() > 0 && line.last() == '\r' {
        line.drop_last()
    } else {
        line
    }
}

/// The text from `from` on read: each line, then the break that ends it, plain, a carriage return
/// apart from its line feed. The last line need not end at all.
pub open spec fn with_rest(runs: Seq<Run>, s: Seq<char>, from: int) -> Seq<Run>
    decreases s.len() - from,
{
    let end = line_end(s, from);
    if from >= s.len() || end < from {
        runs
    } else if end >= s.len() {
        with_line(runs, s.subrange(from, s.len() as int))
    } else {
        let line = s.subrange(from, end);
        let body = uncarried(line);
        let read = with_line(runs, body);
        let carried = with_run(read, line.skip(body.len() as int), Code::Text);
        with_rest(with_run(carried, seq!['\n'], Code::Text), s, end + 1)
    }
}

/// What a listing's runs are.
pub open spec fn spec_highlight(src: Seq<char>) -> Seq<Run> {
    with_rest(Seq::empty(), src, 0)
}

/// The runs' text, end to end.
pub open spec fn text_of(runs: Seq<Run>) -> Seq<char>
    decreases runs.len(),
{
    if runs.len() == 0 {
        Seq::empty()
    } else {
        text_of(runs.drop_last()) + runs.last().text
    }
}

proof fn with_run_adds(runs: Seq<Run>, text: Seq<char>, style: Code)
    ensures
        text_of(with_run(runs, text, style)) == text_of(runs) + text,
{
    if text.len() > 0 {
        assert(runs.push(Run { text, style }).drop_last() =~= runs);
    } else {
        assert(text_of(runs) + text =~= text_of(runs));
    }
}

proof fn flushing_keeps_the_text(s: Scan)
    ensures
        ({
            let f = flushed(s);
            text_of(f.runs) + f.plain + f.word == text_of(s.runs) + s.plain + s.word
        }),
{
    if let Some(style) = spec_classify(s.word) {
        with_run_adds(s.runs, s.plain, Code::Text);
        with_run_adds(with_run(s.runs, s.plain, Code::Text), s.word, style);
        let f = flushed(s);
        assert(text_of(f.runs) + f.plain + f.word =~= text_of(s.runs) + s.plain + s.word);
    }
}

proof fn scanning_keeps_the_text(runs: Seq<Run>, line: Seq<char>, n: int)
    requires
        0 <= n <= line.len(),
    ensures
        ({
            let s = scanned_to(runs, line, n);
            text_of(s.runs) + s.plain + s.word == text_of(runs) + line.take(n)
        }),
    decreases n,
{
    if n > 0 {
        scanning_keeps_the_text(runs, line, n - 1);
        let before = scanned_to(runs, line, n - 1);
        let after = scanned_to(runs, line, n);
        flushing_keeps_the_text(before);
        let f = flushed(before);
        let c = line[n - 1];
        assert(line.take(n) =~= line.take(n - 1).push(c));
        let whole = text_of(before.runs) + before.plain + before.word;
        if alphanumeric(c) || c == '_' {
            assert(text_of(after.runs) + after.plain + after.word =~= whole.push(c));
        } else {
            assert(text_of(after.runs) + after.plain + after.word =~= (text_of(f.runs) + f.plain
                + f.word).push(c));
        }
        assert((text_of(runs) + line.take(n - 1)).push(c) =~= text_of(runs) + line.take(n));
    } else {
        let s = scanned_to(runs, line, n);
        assert(text_of(s.runs) + s.plain + s.word =~= text_of(runs) + line.take(0));
    }
}

proof fn a_line_keeps_its_text(runs: Seq<Run>, line: Seq<char>)
    ensures
        text_of(with_line(runs, line)) == text_of(runs) + line,
{
    comment_is_on_the_line(line, 0);
    let at = comment_at(line, 0);
    let (code, comment) = (line.subrange(0, at), line.subrange(at, line.len() as int));
    scanning_keeps_the_text(runs, code, code.len() as int);
    let s = scanned_to(runs, code, code.len() as int);
    flushing_keeps_the_text(s);
    let f = flushed(s);
    with_run_adds(f.runs, f.plain + f.word, Code::Text);
    assert(text_of(f.runs) + (f.plain + f.word) =~= text_of(f.runs) + f.plain + f.word);
    assert(code.take(code.len() as int) =~= code);
    with_run_adds(with_code(runs, code), comment, Code::Comment);
    assert(text_of(runs) + code + comment =~= text_of(runs) + line) by {
        assert(code + comment =~= line);
        assert(text_of(runs) + code + comment =~= text_of(runs) + (code + comment));
    }
}

proof fn comment_is_on_the_line(line: Seq<char>, k: int)
    requires
        0 <= k,
        k <= line.len(),
    ensures
        k <= comment_at(line, k) <= line.len(),
    decreases line.len() - k,
{
    if k + 1 < line.len() && !(line[k] == '/' && line[k + 1] == '/') {
        comment_is_on_the_line(line, k + 1);
    }
}

proof fn line_ends_are_places(s: Seq<char>, from: int)
    requires
        0 <= from <= s.len(),
    ensures
        from <= line_end(s, from) <= s.len(),
        line_end(s, from) < s.len() ==> s[line_end(s, from)] == '\n',
    decreases s.len() - from,
{
    if from < s.len() && s[from] != '\n' {
        line_ends_are_places(s, from + 1);
    }
}

proof fn the_rest_keeps_its_text(runs: Seq<Run>, s: Seq<char>, from: int)
    requires
        0 <= from <= s.len(),
    ensures
        text_of(with_rest(runs, s, from)) == text_of(runs) + s.subrange(from, s.len() as int),
    decreases s.len() - from,
{
    line_ends_are_places(s, from);
    let end = line_end(s, from);
    let rest = s.subrange(from, s.len() as int);
    if from >= s.len() {
        assert(text_of(runs) + rest =~= text_of(runs));
    } else if end >= s.len() {
        a_line_keeps_its_text(runs, rest);
    } else {
        let line = s.subrange(from, end);
        let body = uncarried(line);
        let carry = line.skip(body.len() as int);
        let read = with_line(runs, body);
        let carried = with_run(read, carry, Code::Text);
        let ended = with_run(carried, seq!['\n'], Code::Text);
        a_line_keeps_its_text(runs, body);
        with_run_adds(read, carry, Code::Text);
        with_run_adds(carried, seq!['\n'], Code::Text);
        the_rest_keeps_its_text(ended, s, end + 1);
        let after = s.subrange(end + 1, s.len() as int);
        assert(body + carry =~= line);
        assert(rest =~= line + seq!['\n'] + after);
        assert(text_of(runs) + body + carry + seq!['\n'] + after =~= text_of(runs) + rest);
    }
}

/// The colouring loses nothing and adds nothing: the runs' text, end to end, is the code.
pub proof fn the_concatenated_text_is_the_code(src: Seq<char>)
    ensures
        text_of(spec_highlight(src)) == src,
{
    the_rest_keeps_its_text(Seq::empty(), src, 0);
    assert(text_of(Seq::<Run>::empty()) + src.subrange(0, src.len() as int) =~= src);
}

/// The tokens as runs.
pub open spec fn runs_of(tokens: Seq<Token>) -> Seq<Run> {
    tokens.map_values(|t: Token| Run { text: t.text@, style: t.style })
}

/// Each token knows its own place.
pub open spec fn numbered(tokens: Seq<Token>) -> bool {
    forall|i: int| 0 <= i < tokens.len() ==> (#[trigger] tokens[i]).i == i
}

/// Characters, as text.
fn text_from(chars: &Vec<char>, from: usize, to: usize) -> (s: String)
    requires
        from <= to <= chars@.len(),
    ensures
        s@ == chars@.subrange(from as int, to as int),
{
    let mut s = String::new();
    let mut i: usize = from;
    while i < to
        invariant
            from <= i <= to <= chars@.len(),
            s@ == chars@.subrange(from as int, i as int),
        decreases to - i,
    {
        s.push(chars[i]);
        i += 1;
        assert(s@ =~= chars@.subrange(from as int, i as int));
    }
    s
}

/// Close a run, where there is anything in it.
fn close(tokens: &mut Vec<Token>, chars: &Vec<char>, from: usize, to: usize, style: Code)
    requires
        from <= to <= chars@.len(),
        numbered(old(tokens)@),
    ensures
        numbered(final(tokens)@),
        runs_of(final(tokens)@) == with_run(
            runs_of(old(tokens)@),
            chars@.subrange(from as int, to as int),
            style,
        ),
{
    if from < to {
        let ghost before = runs_of(tokens@);
        let text = text_from(chars, from, to);
        let n: usize = tokens.len();
        tokens.push(Token { i: n, text, style });
        assert(runs_of(tokens@) =~= before.push(
            Run { text: chars@.subrange(from as int, to as int), style },
        ));
    }
}

/// A word ends.
fn flush(tokens: &mut Vec<Token>, word: &mut Vec<char>, plain: &mut Vec<char>)
    requires
        numbered(old(tokens)@),
    ensures
        numbered(final(tokens)@),
        (Scan { runs: runs_of(final(tokens)@), word: final(word)@, plain: final(plain)@ })
            == flushed(
            Scan { runs: runs_of(old(tokens)@), word: old(word)@, plain: old(plain)@ },
        ),
{
    if let Some(style) = classify(word) {
        assert(plain@.subrange(0, plain@.len() as int) =~= plain@);
        assert(word@.subrange(0, word@.len() as int) =~= word@);
        let (n, m): (usize, usize) = (plain.len(), word.len());
        close(tokens, plain, 0, n, Code::Text);
        close(tokens, word, 0, m, style);
        *word = Vec::new();
        *plain = Vec::new();
        assert(word@ =~= Seq::empty());
        assert(plain@ =~= Seq::empty());
    }
}

/// Add characters to the end of others.
fn add_all(to: &mut Vec<char>, from: &Vec<char>)
    ensures
        final(to)@ == old(to)@ + from@,
{
    let ghost before = to@;
    let mut i: usize = 0;
    assert(before + from@.take(0) =~= before);
    while i < from.len()
        invariant
            i <= from@.len(),
            to@ == before + from@.take(i as int),
        decreases from@.len() - i,
    {
        to.push(from[i]);
        i += 1;
        assert(to@ =~= before + from@.take(i as int));
    }
    assert(from@.take(from@.len() as int) =~= from@);
}

/// Where the comment begins on the line from `from` to `to`.
fn comment_from(chars: &Vec<char>, from: usize, to: usize) -> (at: usize)
    requires
        from <= to <= chars@.len(),
    ensures
        at == from + comment_at(chars@.subrange(from as int, to as int), 0),
        from <= at <= to,
{
    let ghost line = chars@.subrange(from as int, to as int);
    let mut k: usize = from;
    while k < to && to - k > 1
        invariant
            from <= k <= to <= chars@.len(),
            line == chars@.subrange(from as int, to as int),
            comment_at(line, 0) == comment_at(line, k - from),
        decreases to - k,
    {
        assert(line[k - from] == chars@[k as int]);
        assert(line[k - from + 1] == chars@[k + 1]);
        if chars[k] == '/' && chars[k + 1] == '/' {
            return k;
        }
        k += 1;
    }
    to
}

/// Which characters are letters or numbers.
fn letters(chars: &Vec<char>) -> (wordy: Vec<bool>)
    ensures
        wordy@.len() == chars@.len(),
        forall|i: int| 0 <= i < chars@.len() ==> #[trigger] wordy@[i] == alphanumeric(chars@[i]),
        forall|i: int|
            0 <= i < chars@.len() && (chars@[i] as u32) < 128 ==> #[trigger] alphanumeric(chars@[i])
                == ascii_alphanumeric(chars@[i]),
{
    let mut wordy: Vec<bool> = Vec::new();
    let mut i: usize = 0;
    while i < chars.len()
        invariant
            i <= chars@.len(),
            wordy@.len() == i,
            forall|j: int| 0 <= j < i ==> #[trigger] wordy@[j] == alphanumeric(chars@[j]),
            forall|j: int|
                0 <= j < i && (chars@[j] as u32) < 128 ==> #[trigger] alphanumeric(chars@[j])
                    == ascii_alphanumeric(chars@[j]),
        decreases chars@.len() - i,
    {
        wordy.push(is_alphanumeric(chars[i]));
        i += 1;
    }
    wordy
}

/// Read the line from `from` to `to`.
fn read_line(
    tokens: &mut Vec<Token>,
    chars: &Vec<char>,
    wordy: &Vec<bool>,
    from: usize,
    to: usize,
)
    requires
        numbered(old(tokens)@),
        from <= to <= chars@.len(),
        wordy@.len() == chars@.len(),
        forall|i: int| 0 <= i < chars@.len() ==> #[trigger] wordy@[i] == alphanumeric(chars@[i]),
    ensures
        numbered(final(tokens)@),
        runs_of(final(tokens)@) == with_line(
            runs_of(old(tokens)@),
            chars@.subrange(from as int, to as int),
        ),
{
    let ghost runs = runs_of(tokens@);
    let ghost line = chars@.subrange(from as int, to as int);
    let at: usize = comment_from(chars, from, to);
    let ghost code = line.subrange(0, at - from);
    let mut word: Vec<char> = Vec::new();
    let mut plain: Vec<char> = Vec::new();
    let mut i: usize = from;
    assert(word@ =~= Seq::empty());
    assert(plain@ =~= Seq::empty());
    while i < at
        invariant
            from <= i <= at <= to <= chars@.len(),
            line == chars@.subrange(from as int, to as int),
            code == line.subrange(0, at - from),
            wordy@.len() == chars@.len(),
            forall|j: int|
                0 <= j < chars@.len() ==> #[trigger] wordy@[j] == alphanumeric(chars@[j]),
            numbered(tokens@),
            (Scan { runs: runs_of(tokens@), word: word@, plain: plain@ }) == scanned_to(
                runs,
                code,
                i - from,
            ),
        decreases at - i,
    {
        let c: char = chars[i];
        assert(code[i - from] == c);
        if wordy[i] || c == '_' {
            word.push(c);
        } else {
            flush(tokens, &mut word, &mut plain);
            add_all(&mut plain, &word);
            word = Vec::new();
            assert(word@ =~= Seq::empty());
            plain.push(c);
        }
        i += 1;
    }
    flush(tokens, &mut word, &mut plain);
    add_all(&mut plain, &word);
    assert(plain@.subrange(0, plain@.len() as int) =~= plain@);
    let n: usize = plain.len();
    close(tokens, &plain, 0, n, Code::Text);
    close(tokens, chars, at, to, Code::Comment);
    assert(chars@.subrange(at as int, to as int) =~= line.subrange(at - from, line.len() as int));
}

/// The runs of a listing, each with its colour: types and constants stand out, comments stand
/// back, and everything else is left plain. Their text, end to end, is the listing.
pub fn highlight(src: &str) -> (tokens: Vec<Token>)
    ensures
        numbered(tokens@),
        runs_of(tokens@) == spec_highlight(src@),
        text_of(runs_of(tokens@)) == src@,
        forall|i: int|
            0 <= i < src@.len() && (src@[i] as u32) < 128 ==> #[trigger] alphanumeric(src@[i])
                == ascii_alphanumeric(src@[i]),
{
    let chars = chars_of(src);
    let wordy = letters(&chars);
    let n: usize = chars.len();
    let mut tokens: Vec<Token> = Vec::new();
    let mut from: usize = 0;
    assert(runs_of(tokens@) =~= Seq::empty());
    while from < n
        invariant
            from <= n,
            n == chars@.len(),
            chars@ == src@,
            wordy@.len() == chars@.len(),
            forall|j: int|
                0 <= j < chars@.len() ==> #[trigger] wordy@[j] == alphanumeric(chars@[j]),
            numbered(tokens@),
            with_rest(runs_of(tokens@), src@, from as int) == spec_highlight(src@),
        decreases n - from,
    {
        let mut end: usize = from;
        while end < n && chars[end] != '\n'
            invariant
                from <= end <= n,
                n == chars@.len(),
                chars@ == src@,
                line_end(src@, from as int) == line_end(src@, end as int),
            decreases n - end,
        {
            end += 1;
        }
        proof {
            line_ends_are_places(src@, from as int);
        }
        let ghost line = src@.subrange(from as int, end as int);
        if end == n {
            read_line(&mut tokens, &chars, &wordy, from, n);
            from = n;
        } else {
            let cut: usize = if end > from && chars[end - 1] == '\r' {
                end - 1
            } else {
                end
            };
            proof {
                if end > from {
                    assert(line.last() == src@[end - 1]);
                }
                assert(src@.subrange(from as int, cut as int) =~= uncarried(line));
                assert(src@.subrange(cut as int, end as int) =~= line.skip(
                    uncarried(line).len() as int,
                ));
                assert(src@.subrange(end as int, end + 1) =~= seq!['\n']);
            }
            read_line(&mut tokens, &chars, &wordy, from, cut);
            close(&mut tokens, &chars, cut, end, Code::Text);
            close(&mut tokens, &chars, end, end + 1, Code::Text);
            from = end + 1;
        }
    }
    proof {
        the_concatenated_text_is_the_code(src@);
    }
    tokens
}

/// A word is a literal where it is all capitals, digits and underscores with a capital among them,
/// a name where it only begins with a capital, and otherwise nothing in particular.
pub proof fn a_word_is_styled_by_its_capitals(word: Seq<char>)
    ensures
        ({
            let capital = |c: char| 'A' as u32 <= c as u32 <= 'Z' as u32;
            let shouts = word.len() > 0 && (forall|i: int|
                0 <= i < word.len() ==> capital(#[trigger] word[i]) || '0' as u32 <= word[i] as u32
                    <= '9' as u32 || word[i] == '_') && (exists|i: int|
                0 <= i < word.len() && capital(#[trigger] word[i]));
            &&& spec_classify(word) == Some(Code::Literal) <==> shouts
            &&& spec_classify(word) == Some(Code::Name) <==> !shouts && word.len() > 0 && capital(
                word[0],
            )
            &&& spec_classify(word) is None <==> !shouts && (word.len() == 0 || !capital(word[0]))
        }),
{
    let capital = |c: char| 'A' as u32 <= c as u32 <= 'Z' as u32;
    if exists|i: int| 0 <= i < word.len() && upper(#[trigger] word[i]) {
        let i = choose|i: int| 0 <= i < word.len() && upper(#[trigger] word[i]);
        assert(capital(word[i]));
    }
    if exists|i: int| 0 <= i < word.len() && capital(#[trigger] word[i]) {
        let i = choose|i: int| 0 <= i < word.len() && capital(#[trigger] word[i]);
        assert(upper(word[i]));
    }
    assert forall|i: int| 0 <= i < word.len() implies (shouted(#[trigger] word[i]) <==> capital(
        word[i],
    ) || '0' as u32 <= word[i] as u32 <= '9' as u32 || word[i] == '_') by {}
}

/// A comment begins at the first two slashes of a line, and a line with none has no comment.
pub proof fn a_comment_begins_at_the_first_slashes(line: Seq<char>, k: int)
    requires
        0 <= k <= line.len(),
    ensures
        ({
            let at = comment_at(line, k);
            &&& k <= at <= line.len()
            &&& at < line.len() ==> at + 1 < line.len() && line[at] == '/' && line[at + 1] == '/'
            &&& forall|i: int|
                #![trigger line[i]]
                k <= i < at && i + 1 < line.len() ==> !(line[i] == '/' && line[i + 1] == '/')
        }),
    decreases line.len() - k,
{
    if k + 1 < line.len() && !(line[k] == '/' && line[k + 1] == '/') {
        a_comment_begins_at_the_first_slashes(line, k + 1);
    }
}

/// A line's comment is one run, to the end of the line, after whatever the line's code came to.
pub proof fn a_comment_is_one_run(runs: Seq<Run>, line: Seq<char>)
    ensures
        ({
            let at = comment_at(line, 0);
            let code = with_code(runs, line.subrange(0, at));
            &&& at < line.len() ==> with_line(runs, line) == code.push(
                Run { text: line.skip(at), style: Code::Comment },
            )
            &&& at >= line.len() ==> with_line(runs, line) == code
        }),
{
    a_comment_begins_at_the_first_slashes(line, 0);
    let at = comment_at(line, 0);
    assert(line.subrange(at, line.len() as int) =~= line.skip(at));
}

/// A word goes on with each letter, digit and underscore, and ends at anything else, which is plain
/// text after it.
pub proof fn a_word_ends_where_its_letters_do(s: Scan, c: char)
    ensures
        alphanumeric(c) || c == '_' ==> scanned(s, c).word == s.word.push(c) && scanned(s, c).runs
            == s.runs && scanned(s, c).plain == s.plain,
        !alphanumeric(c) && c != '_' ==> scanned(s, c).word.len() == 0 && scanned(
            s,
            c,
        ).plain.last() == c,
        !alphanumeric(c) && c != '_' && spec_classify(s.word) is None ==> scanned(s, c).runs
            == s.runs && scanned(s, c).plain == (s.plain + s.word).push(c),
        !alphanumeric(c) && c != '_' && spec_classify(s.word) is Some ==> {
            let (text, word) = (
                Run { text: s.plain, style: Code::Text },
                Run { text: s.word, style: spec_classify(s.word)->0 },
            );
            &&& scanned(s, c).plain == seq![c]
            &&& s.plain.len() > 0 ==> scanned(s, c).runs == s.runs.push(text).push(word)
            &&& s.plain.len() == 0 ==> scanned(s, c).runs == s.runs.push(word)
        },
{
    if spec_classify(s.word) is Some {
        assert((Seq::<char>::empty() + Seq::<char>::empty()).push(c) =~= seq![c]);
    }
}

/// A line ends at its first line feed, and a text's last where the text does.
pub proof fn a_line_ends_at_its_first_feed(s: Seq<char>, from: int)
    requires
        0 <= from <= s.len(),
    ensures
        ({
            let end = line_end(s, from);
            &&& from <= end <= s.len()
            &&& end < s.len() ==> s[end] == '\n'
            &&& forall|i: int| from <= i < end ==> #[trigger] s[i] != '\n'
        }),
    decreases s.len() - from,
{
    if from < s.len() && s[from] != '\n' {
        a_line_ends_at_its_first_feed(s, from + 1);
    }
}

/// A carriage return at a line's end is not the line's.
pub proof fn a_carriage_return_is_not_the_lines(line: Seq<char>)
    ensures
        uncarried(line.push('\r')) == line,
        line.len() > 0 && line.last() != '\r' ==> uncarried(line) == line,
        uncarried(Seq::empty()) == Seq::<char>::empty(),
{
    assert(line.push('\r').drop_last() =~= line);
}

proof fn each_word_is_its_styles(runs: Seq<Run>, line: Seq<char>, n: int, i: int)
    requires
        0 <= n <= line.len(),
        runs.len() <= i < scanned_to(runs, line, n).runs.len(),
    ensures
        ({
            let run = scanned_to(runs, line, n).runs[i];
            run.style != Code::Text ==> spec_classify(run.text) == Some(run.style)
        }),
    decreases n,
{
    if n > 0 {
        let before = scanned_to(runs, line, n - 1);
        if i < before.runs.len() {
            each_word_is_its_styles(runs, line, n - 1, i);
            runs_are_only_added(runs, line, n - 1);
            a_word_ends_where_its_letters_do(before, line[n - 1]);
        }
    }
}

proof fn runs_are_only_added(runs: Seq<Run>, line: Seq<char>, n: int)
    requires
        0 <= n <= line.len(),
    ensures
        scanned_to(runs, line, n).runs.len() >= runs.len(),
    decreases n,
{
    if n > 0 {
        runs_are_only_added(runs, line, n - 1);
    }
}

/// Whatever of a line's code is not plain text is a word, in the style that word has.
pub proof fn whatever_is_styled_is_a_word_of_its_style(runs: Seq<Run>, line: Seq<char>, i: int)
    requires
        runs.len() <= i < with_code(runs, line).len(),
    ensures
        with_code(runs, line)[i].style != Code::Text ==> spec_classify(
            with_code(runs, line)[i].text,
        ) == Some(with_code(runs, line)[i].style),
{
    let n = line.len() as int;
    let s = scanned_to(runs, line, n);
    if i < s.runs.len() {
        each_word_is_its_styles(runs, line, n, i);
    }
}

/// A style is named for what it styles, and letters and digits are the ones of the alphabet.
pub proof fn a_style_is_named_for_what_it_styles(c: char)
    ensures
        Code::Text.spec_name() == "--code-text"@,
        Code::Comment.spec_name() == "--code-comment"@,
        Code::Name.spec_name() == "--code-name"@,
        Code::Literal.spec_name() == "--code-literal"@,
        ascii_alphanumeric(c) <==> 'a' as u32 <= c as u32 <= 'z' as u32 || 'A' as u32 <= c as u32
            <= 'Z' as u32 || '0' as u32 <= c as u32 <= '9' as u32,
{
}

/// A token is its run, and a text's tokens are its runs in order.
pub proof fn a_token_is_its_run(tokens: Seq<Token>, i: int)
    requires
        0 <= i < tokens.len(),
    ensures
        runs_of(tokens).len() == tokens.len(),
        runs_of(tokens)[i].text == tokens[i].text@ && runs_of(tokens)[i].style == tokens[i].style,
{
}

} // verus!
