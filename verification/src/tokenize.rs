//! The tokenizer: turns one input line into a command record
//! (name, arguments, background flag), honoring whitespace,
//! end-of-line comments and the `&` background marker.
//!
//! The line is split on single-space boundaries; each token is trimmed
//! of surrounding whitespace and then processed left to right:
//! empty tokens are skipped, a token starting with `#` ends the line
//! (comment), a token starting with `&` sets the background flag and
//! discards the rest of the line, a token ending in `&` is stripped and
//! sets the background flag, and the surviving tokens become the command
//! name (first) and its arguments (rest). The tokenizer never fails:
//! malformed input degrades to empty or partial fields.

use vstd::prelude::*;
use vstd::string::StrSliceExecFns;
use vstd::string::StringExecFns;

verus! {

/// The whitespace characters that token trimming removes
/// (the ASCII whitespace set).
pub open spec fn is_space(c: char) -> bool {
    c == ' ' || c == '\t' || c == '\n' || c == '\r' || c == '\u{0c}'
}

/// Executable test for [`is_space`].
pub fn is_space_char(c: char) -> (r: bool)
    ensures
        r == is_space(c),
{
    c == ' ' || c == '\t' || c == '\n' || c == '\r' || c == '\u{0c}'
}

/// The tokens of `s` from position `i` on, split on single spaces,
/// with `cur` the partial token accumulated so far. Splitting matches
/// the usual single-separator semantics: consecutive spaces produce
/// empty tokens, and the empty line produces one empty token.
pub open spec fn split_from(s: Seq<char>, i: int, cur: Seq<char>) -> Seq<Seq<char>>
    decreases s.len() - i,
    when 0 <= i <= s.len()
{
    if i >= s.len() {
        seq![cur]
    } else if s[i] == ' ' {
        seq![cur] + split_from(s, i + 1, seq![])
    } else {
        split_from(s, i + 1, cur.push(s[i]))
    }
}

/// The line `s` split on single-space boundaries.
pub open spec fn spec_split(s: Seq<char>) -> Seq<Seq<char>> {
    split_from(s, 0, seq![])
}

/// `t` with its leading whitespace removed.
pub open spec fn trim_start(t: Seq<char>) -> Seq<char>
    decreases t.len(),
{
    if t.len() == 0 {
        t
    } else if is_space(t[0]) {
        trim_start(t.drop_first())
    } else {
        t
    }
}

/// `t` with its trailing whitespace removed.
pub open spec fn trim_end(t: Seq<char>) -> Seq<char>
    decreases t.len(),
{
    if t.len() == 0 {
        t
    } else if is_space(t.last()) {
        trim_end(t.drop_last())
    } else {
        t
    }
}

/// `t` with whitespace removed from both ends.
pub open spec fn spec_trim(t: Seq<char>) -> Seq<char> {
    trim_end(trim_start(t))
}

/// Removing leading whitespace leaves exactly the suffix that begins at
/// the first non-whitespace character.
proof fn lemma_trim_start_skip(t: Seq<char>, lo: int)
    requires
        0 <= lo <= t.len(),
        forall|k: int| 0 <= k < lo ==> is_space(t[k]),
        lo < t.len() ==> !is_space(t[lo]),
    ensures
        trim_start(t) == t.skip(lo),
    decreases lo,
{
    if lo == 0 {
        assert(t.skip(0) =~= t);
    } else {
        lemma_trim_start_skip(t.drop_first(), lo - 1);
        assert(t.drop_first().skip(lo - 1) =~= t.skip(lo));
    }
}

/// Removing trailing whitespace leaves exactly the prefix that ends
/// after the last non-whitespace character.
proof fn lemma_trim_end_take(t: Seq<char>, hi: int)
    requires
        0 <= hi <= t.len(),
        forall|k: int| hi <= k < t.len() ==> is_space(t[k]),
        hi > 0 ==> !is_space(t[hi - 1]),
    ensures
        trim_end(t) == t.take(hi),
    decreases t.len() - hi,
{
    if hi == t.len() {
        assert(t.take(hi) =~= t);
    } else {
        lemma_trim_end_take(t.drop_last(), hi);
        assert(t.drop_last().take(hi) =~= t.take(hi));
    }
}

/// Trims whitespace from both ends of `t`.
pub fn trim_token<'a>(t: &'a str) -> (r: &'a str)
    ensures
        r@ == spec_trim(t@),
{
    let n = t.unicode_len();
    let mut lo: usize = 0;
    while lo < n && is_space_char(t.get_char(lo))
        invariant
            lo <= n,
            n == t@.len(),
            forall|k: int| 0 <= k < lo ==> is_space(t@[k]),
        decreases n - lo,
    {
        lo += 1;
    }
    let mut hi: usize = n;
    while hi > lo && is_space_char(t.get_char(hi - 1))
        invariant
            lo <= hi <= n,
            n == t@.len(),
            forall|k: int| 0 <= k < lo ==> is_space(t@[k]),
            forall|k: int| hi <= k < n ==> is_space(t@[k]),
        decreases hi,
    {
        hi -= 1;
    }
    proof {
        lemma_trim_start_skip(t@, lo as int);
        if hi == lo {
            // everything after `lo` is whitespace
            lemma_trim_end_take(t@.skip(lo as int), 0);
        } else {
            lemma_trim_end_take(t@.skip(lo as int), hi - lo);
        }
        assert(t@.skip(lo as int).take(hi - lo) =~= t@.subrange(lo as int, hi as int));
    }
    t.substring_char(lo, hi)
}

/// Splits `s` on single spaces. The result always holds at least one
/// token; tokens may be empty where spaces are consecutive or at the
/// ends of the line.
pub fn split_line(s: &str) -> (r: Vec<String>)
    ensures
        r.deep_view() == spec_split(s@),
{
    let n = s.unicode_len();
    let mut toks: Vec<String> = Vec::new();
    let mut start: usize = 0;
    let mut i: usize = 0;
    proof {
        assert(s@.subrange(0, 0) =~= Seq::<char>::empty());
    }
    while i < n
        invariant
            start <= i <= n,
            n == s@.len(),
            spec_split(s@) == toks.deep_view() + split_from(
                s@,
                i as int,
                s@.subrange(start as int, i as int),
            ),
        decreases n - i,
    {
        let ghost prev = toks.deep_view();
        let ghost cur = s@.subrange(start as int, i as int);
        if s.get_char(i) == ' ' {
            let tok = s.substring_char(start, i);
            toks.push(String::from_str(tok));
            proof {
                assert(toks.deep_view() =~= prev.push(cur));
                assert(s@.subrange(i + 1, i + 1) =~= Seq::<char>::empty());
                assert(split_from(s@, i as int, cur) == seq![cur] + split_from(
                    s@,
                    i as int + 1,
                    Seq::<char>::empty(),
                ));
                assert(prev + (seq![cur] + split_from(s@, i + 1, Seq::<char>::empty()))
                    =~= prev.push(cur) + split_from(s@, i + 1, Seq::<char>::empty()));
            }
            start = i + 1;
        } else {
            proof {
                assert(cur.push(s@[i as int]) =~= s@.subrange(start as int, i as int + 1));
            }
        }
        i += 1;
    }
    let last = s.substring_char(start, n);
    toks.push(String::from_str(last));
    proof {
        let ghost cur = s@.subrange(start as int, n as int);
        assert(split_from(s@, n as int, cur) == seq![cur]);
        assert(toks.deep_view() =~= spec_split(s@));
    }
    toks
}

/// Character-for-character string equality.
pub fn str_eq(a: &str, b: &str) -> (r: bool)
    ensures
        r == (a@ == b@),
{
    let n = a.unicode_len();
    let m = b.unicode_len();
    if n != m {
        return false;
    }
    let mut i: usize = 0;
    while i < n
        invariant
            i <= n,
            n == a@.len() == b@.len(),
            forall|k: int| 0 <= k < i ==> a@[k] == b@[k],
        decreases n - i,
    {
        if a.get_char(i) != b.get_char(i) {
            return false;
        }
        i += 1;
    }
    proof {
        assert(a@ =~= b@);
    }
    true
}

/// The mathematical model of a tokenized line: a command name, its
/// arguments in input order, and the background flag.
pub struct SpecCommand {
    pub name: Seq<char>,
    pub args: Seq<Seq<char>>,
    pub background: bool,
}

/// The record a line that carries no command yields: empty name, no
/// arguments, foreground.
pub open spec fn empty_command() -> SpecCommand {
    SpecCommand { name: seq![], args: seq![], background: false }
}

/// Processes the split tokens left to right, starting from the partial
/// record `acc`: empty tokens are skipped, `#` ends the line, a leading
/// `&` sets the background flag and discards the rest, a trailing `&`
/// is stripped and sets the flag, and surviving tokens fill the name
/// (first) and the arguments (rest).
pub open spec fn parse_toks(toks: Seq<Seq<char>>, acc: SpecCommand) -> SpecCommand
    decreases toks.len(),
{
    if toks.len() == 0 {
        acc
    } else {
        let t = spec_trim(toks[0]);
        if t.len() == 0 {
            parse_toks(toks.drop_first(), acc)
        } else if t[0] == '#' {
            acc
        } else if t[0] == '&' {
            SpecCommand { background: true, ..acc }
        } else {
            let word = if t.last() == '&' {
                t.drop_last()
            } else {
                t
            };
            let bg = if t.last() == '&' {
                true
            } else {
                acc.background
            };
            let acc2 = if acc.name.len() == 0 {
                SpecCommand { name: word, args: acc.args, background: bg }
            } else {
                SpecCommand { name: acc.name, args: acc.args.push(word), background: bg }
            };
            parse_toks(toks.drop_first(), acc2)
        }
    }
}

/// The command record that tokenizing `line` yields.
pub open spec fn spec_parse(line: Seq<char>) -> SpecCommand {
    parse_toks(spec_split(line), empty_command())
}

/// One tokenized input line: the command name (`cmd`), its arguments in
/// input order, and whether to run it in the background. Created fresh
/// for each line and discarded at the end of the iteration.
pub struct CommandLine {
    pub cmd: String,
    pub args: Vec<String>,
    pub bg: bool,
}

impl View for CommandLine {
    type V = SpecCommand;

    open spec fn view(&self) -> SpecCommand {
        SpecCommand { name: self.cmd@, args: self.args.deep_view(), background: self.bg }
    }
}

/// Tokenizes one input line into a command record. This never fails:
/// a blank or fully commented line yields an empty name, which the
/// caller must treat as a no-op rather than as a command.
pub fn preprocess(line: &str) -> (r: CommandLine)
    ensures
        r@ == spec_parse(line@),
{
    let toks = split_line(line);
    let ghost toks_v = toks.deep_view();
    let mut name = String::new();
    let mut args: Vec<String> = Vec::new();
    let mut bg = false;
    let mut stopped = false;
    let mut i: usize = 0;
    proof {
        assert(toks_v.skip(0) =~= toks_v);
        assert(name@ =~= Seq::<char>::empty());
        assert(args.deep_view() =~= Seq::<Seq<char>>::empty());
        assert(Seq::<char>::empty() =~= empty_command().name);
        assert(Seq::<Seq<char>>::empty() =~= empty_command().args);
        assert(SpecCommand { name: name@, args: args.deep_view(), background: bg }
            == empty_command());
    }
    while i < toks.len() && !stopped
        invariant
            i <= toks.len(),
            toks_v == toks.deep_view(),
            ({
                let cur = SpecCommand { name: name@, args: args.deep_view(), background: bg };
                if stopped {
                    spec_parse(line@) == cur
                } else {
                    spec_parse(line@) == parse_toks(toks_v.skip(i as int), cur)
                }
            }),
        decreases toks.len() - i,
    {
        let ghost cur = SpecCommand { name: name@, args: args.deep_view(), background: bg };
        proof {
            assert(toks_v.skip(i as int)[0] == toks_v[i as int]);
            assert(toks_v.skip(i as int).drop_first() =~= toks_v.skip(i as int + 1));
        }
        let t = trim_token(toks[i].as_str());
        let tn = t.unicode_len();
        if tn == 0 {
            i += 1;
        } else {
            let first = t.get_char(0);
            if first == '#' {
                stopped = true;
                i += 1;
            } else if first == '&' {
                bg = true;
                stopped = true;
                i += 1;
            } else {
                let last = t.get_char(tn - 1);
                let word: &str = if last == '&' {
                    bg = true;
                    t.substring_char(0, tn - 1)
                } else {
                    t
                };
                proof {
                    if t@.last() == '&' {
                        assert(t@.subrange(0, t@.len() - 1) =~= t@.drop_last());
                    }
                }
                if name.as_str().is_empty() {
                    name = String::from_str(word);
                } else {
                    let ghost prev_args = args.deep_view();
                    args.push(String::from_str(word));
                    proof {
                        assert(args.deep_view() =~= prev_args.push(word@));
                    }
                }
                i += 1;
            }
        }
    }
    proof {
        if !stopped {
            assert(toks_v.skip(i as int) =~= Seq::<Seq<char>>::empty());
        }
    }
    CommandLine { cmd: name, args, bg }
}

/// A token sequence that carries no command: every token is blank
/// (trims to nothing) up to the end of the line or up to a comment
/// token.
spec fn noop_tokens(toks: Seq<Seq<char>>) -> bool
    decreases toks.len(),
{
    if toks.len() == 0 {
        true
    } else {
        let t = spec_trim(toks[0]);
        if t.len() == 0 {
            noop_tokens(toks.drop_first())
        } else {
            t[0] == '#'
        }
    }
}

/// Processing tokens that carry no command leaves the record untouched.
proof fn lemma_noop_tokens_parse(toks: Seq<Seq<char>>, acc: SpecCommand)
    requires
        noop_tokens(toks),
    ensures
        parse_toks(toks, acc) == acc,
    decreases toks.len(),
{
    if toks.len() > 0 && spec_trim(toks[0]).len() == 0 {
        lemma_noop_tokens_parse(toks.drop_first(), acc);
    }
}

/// A token made only of whitespace trims to nothing.
proof fn lemma_trim_all_space(t: Seq<char>)
    requires
        forall|k: int| 0 <= k < t.len() ==> is_space(t[k]),
    ensures
        spec_trim(t).len() == 0,
    decreases t.len(),
{
    if t.len() > 0 {
        lemma_trim_all_space(t.drop_first());
    }
}

/// Tokens never hold the separator: every character of every token of
/// `split_from(s, i, cur)` satisfies `p`, provided the characters of the
/// partial token do and every non-separator character of `s` from `i`
/// on does.
proof fn lemma_split_from_chars(s: Seq<char>, i: int, cur: Seq<char>, p: spec_fn(char) -> bool)
    requires
        0 <= i <= s.len(),
        forall|k: int| 0 <= k < cur.len() ==> p(cur[k]),
        forall|k: int| i <= k < s.len() && s[k] != ' ' ==> p(s[k]),
    ensures
        forall|j: int, k: int|
            0 <= j < split_from(s, i, cur).len() && 0 <= k < split_from(s, i, cur)[j].len() ==> p(
                split_from(s, i, cur)[j][k],
            ),
    decreases s.len() - i,
{
    if i < s.len() {
        if s[i] == ' ' {
            lemma_split_from_chars(s, i + 1, seq![], p);
            let rest = split_from(s, i + 1, seq![]);
            let whole = split_from(s, i, cur);
            assert(whole == seq![cur] + rest);
            assert forall|j: int, k: int|
                0 <= j < whole.len() && 0 <= k < whole[j].len() implies p(whole[j][k]) by {
                if j == 0 {
                    assert(whole[0] == cur);
                } else {
                    assert(whole[j] == rest[j - 1]);
                }
            }
        } else {
            let ext = cur.push(s[i]);
            assert forall|k: int| 0 <= k < ext.len() implies p(ext[k]) by {
                if k < cur.len() {
                    assert(ext[k] == cur[k]);
                } else {
                    assert(ext[k] == s[i]);
                }
            }
            lemma_split_from_chars(s, i + 1, ext, p);
            assert(split_from(s, i, cur) == split_from(s, i + 1, ext));
        }
    } else {
        let whole = split_from(s, i, cur);
        assert(whole == seq![cur]);
        assert forall|j: int, k: int|
            0 <= j < whole.len() && 0 <= k < whole[j].len() implies p(whole[j][k]) by {
            assert(whole[j] == cur);
        }
    }
}

/// The first token of `split_from(s, i, cur)` extends `cur`, and its
/// next character is `s[i]` when that is not the separator.
proof fn lemma_split_head(s: Seq<char>, i: int, cur: Seq<char>)
    requires
        0 <= i <= s.len(),
    ensures
        split_from(s, i, cur).len() >= 1,
        split_from(s, i, cur)[0].len() >= cur.len(),
        forall|k: int| 0 <= k < cur.len() ==> split_from(s, i, cur)[0][k] == cur[k],
        (i < s.len() && s[i] != ' ') ==> split_from(s, i, cur)[0].len() >= cur.len() + 1
            && split_from(s, i, cur)[0][cur.len() as int] == s[i],
    decreases s.len() - i,
{
    if i < s.len() && s[i] != ' ' {
        lemma_split_head(s, i + 1, cur.push(s[i]));
        let ext = cur.push(s[i]);
        let head = split_from(s, i, cur)[0];
        assert(split_from(s, i, cur) == split_from(s, i + 1, ext));
        assert forall|k: int| 0 <= k < cur.len() implies head[k] == cur[k] by {
            assert(head[k] == ext[k]);
        }
        assert(head[cur.len() as int] == ext[cur.len() as int]);
    }
}

/// A token whose first character is not whitespace keeps it through
/// trimming, and the trimmed token is nonempty.
proof fn lemma_trim_keeps_head(t: Seq<char>)
    requires
        t.len() > 0,
        !is_space(t[0]),
    ensures
        spec_trim(t).len() > 0,
        spec_trim(t)[0] == t[0],
{
    assert(trim_start(t) == t);
    lemma_trim_end_keeps_head(t);
}

/// Trimming from the end never touches a non-whitespace first character.
proof fn lemma_trim_end_keeps_head(t: Seq<char>)
    requires
        t.len() > 0,
        !is_space(t[0]),
    ensures
        trim_end(t).len() > 0,
        trim_end(t)[0] == t[0],
    decreases t.len(),
{
    if is_space(t.last()) {
        lemma_trim_end_keeps_head(t.drop_last());
    }
}

/// A line that carries no command is a no-op: an empty line, a line of
/// nothing but whitespace, or a line whose first character is `#` (a
/// fully commented line) tokenizes to the empty record, so no builtin
/// runs and no process spawns for it.
pub proof fn lemma_blank_or_comment_line(line: Seq<char>)
    requires
        (forall|k: int| 0 <= k < line.len() ==> is_space(line[k])) || (line.len() > 0 && line[0]
            == '#'),
    ensures
        spec_parse(line) == empty_command(),
{
    let toks = spec_split(line);
    if forall|k: int| 0 <= k < line.len() ==> is_space(line[k]) {
        lemma_split_from_chars(line, 0, seq![], |c: char| is_space(c));
        assert forall|j: int| 0 <= j < toks.len() implies spec_trim(toks[j]).len() == 0 by {
            lemma_trim_all_space(toks[j]);
        }
        lemma_all_blank_noop(toks);
        lemma_noop_tokens_parse(toks, empty_command());
    } else {
        lemma_split_head(line, 0, seq![]);
        let head = toks[0];
        assert(head[0] == '#');
        lemma_trim_keeps_head(head);
        assert(spec_trim(head)[0] == '#');
        assert(parse_toks(toks, empty_command()) == empty_command());
    }
}

/// Trimming keeps only characters of the token: a property of every
/// character survives it.
proof fn lemma_trim_chars(t: Seq<char>, p: spec_fn(char) -> bool)
    requires
        forall|k: int| 0 <= k < t.len() ==> p(t[k]),
    ensures
        forall|k: int| 0 <= k < spec_trim(t).len() ==> p(spec_trim(t)[k]),
{
    lemma_trim_start_chars(t, p);
    lemma_trim_end_chars(trim_start(t), p);
}

/// Trimming from the start keeps only characters of the token.
proof fn lemma_trim_start_chars(t: Seq<char>, p: spec_fn(char) -> bool)
    requires
        forall|k: int| 0 <= k < t.len() ==> p(t[k]),
    ensures
        forall|k: int| 0 <= k < trim_start(t).len() ==> p(trim_start(t)[k]),
    decreases t.len(),
{
    if t.len() > 0 && is_space(t[0]) {
        assert forall|k: int| 0 <= k < t.drop_first().len() implies p(t.drop_first()[k]) by {
            assert(t.drop_first()[k] == t[k + 1]);
        }
        lemma_trim_start_chars(t.drop_first(), p);
        assert forall|k: int| 0 <= k < trim_start(t).len() implies p(trim_start(t)[k]) by {
            assert(trim_start(t)[k] == trim_start(t.drop_first())[k]);
        }
    } else {
        assert forall|k: int| 0 <= k < trim_start(t).len() implies p(trim_start(t)[k]) by {
            assert(trim_start(t)[k] == t[k]);
        }
    }
}

/// Trimming from the end keeps only characters of the token.
proof fn lemma_trim_end_chars(t: Seq<char>, p: spec_fn(char) -> bool)
    requires
        forall|k: int| 0 <= k < t.len() ==> p(t[k]),
    ensures
        forall|k: int| 0 <= k < trim_end(t).len() ==> p(trim_end(t)[k]),
    decreases t.len(),
{
    if t.len() > 0 && is_space(t.last()) {
        assert forall|k: int| 0 <= k < t.drop_last().len() implies p(t.drop_last()[k]) by {
            assert(t.drop_last()[k] == t[k]);
        }
        lemma_trim_end_chars(t.drop_last(), p);
        assert forall|k: int| 0 <= k < trim_end(t).len() implies p(trim_end(t)[k]) by {
            assert(trim_end(t)[k] == trim_end(t.drop_last())[k]);
        }
    } else {
        assert forall|k: int| 0 <= k < trim_end(t).len() implies p(trim_end(t)[k]) by {
            assert(trim_end(t)[k] == t[k]);
        }
    }
}

/// Processing tokens whose characters all satisfy `p` starting from a
/// record whose name's and arguments' characters do leaves a record
/// whose name's and arguments' characters still do.
proof fn lemma_parse_toks_chars(toks: Seq<Seq<char>>, acc: SpecCommand, p: spec_fn(char) -> bool)
    requires
        forall|j: int, k: int| 0 <= j < toks.len() && 0 <= k < toks[j].len() ==> p(toks[j][k]),
        forall|k: int| 0 <= k < acc.name.len() ==> p(acc.name[k]),
        forall|j: int, k: int|
            0 <= j < acc.args.len() && 0 <= k < acc.args[j].len() ==> p(acc.args[j][k]),
    ensures
        forall|k: int|
            0 <= k < parse_toks(toks, acc).name.len() ==> p(parse_toks(toks, acc).name[k]),
        forall|j: int, k: int|
            0 <= j < parse_toks(toks, acc).args.len() && 0 <= k < parse_toks(toks, acc).args[j].len()
                ==> p(parse_toks(toks, acc).args[j][k]),
    decreases toks.len(),
{
    let res = parse_toks(toks, acc);
    if toks.len() == 0 {
        assert forall|k: int| 0 <= k < res.name.len() implies p(res.name[k]) by {
            assert(res.name[k] == acc.name[k]);
        }
        assert forall|j: int, k: int|
            0 <= j < res.args.len() && 0 <= k < res.args[j].len() implies p(res.args[j][k]) by {
            assert(res.args[j][k] == acc.args[j][k]);
        }
    } else {
        let rest = toks.drop_first();
        assert forall|j: int, k: int|
            0 <= j < rest.len() && 0 <= k < rest[j].len() implies p(rest[j][k]) by {
            assert(rest[j] == toks[j + 1]);
        }
        let t = spec_trim(toks[0]);
        lemma_trim_chars(toks[0], p);
        if t.len() == 0 {
            lemma_parse_toks_chars(rest, acc, p);
            let sub = parse_toks(rest, acc);
            assert forall|k: int| 0 <= k < res.name.len() implies p(res.name[k]) by {
                assert(res.name[k] == sub.name[k]);
            }
            assert forall|j: int, k: int|
                0 <= j < res.args.len() && 0 <= k < res.args[j].len() implies p(
                res.args[j][k],
            ) by {
                assert(res.args[j][k] == sub.args[j][k]);
            }
        } else if t[0] == '#' || t[0] == '&' {
            assert forall|k: int| 0 <= k < res.name.len() implies p(res.name[k]) by {
                assert(res.name[k] == acc.name[k]);
            }
            assert forall|j: int, k: int|
                0 <= j < res.args.len() && 0 <= k < res.args[j].len() implies p(
                res.args[j][k],
            ) by {
                assert(res.args[j][k] == acc.args[j][k]);
            }
        } else {
            let word = if t.last() == '&' {
                t.drop_last()
            } else {
                t
            };
            assert forall|k: int| 0 <= k < word.len() implies p(word[k]) by {
                assert(word[k] == t[k]);
            }
            let bg = if t.last() == '&' {
                true
            } else {
                acc.background
            };
            let acc2 = if acc.name.len() == 0 {
                SpecCommand { name: word, args: acc.args, background: bg }
            } else {
                SpecCommand { name: acc.name, args: acc.args.push(word), background: bg }
            };
            assert forall|j: int, k: int|
                0 <= j < acc2.args.len() && 0 <= k < acc2.args[j].len() implies p(
                acc2.args[j][k],
            ) by {
                if j < acc.args.len() {
                    assert(acc2.args[j] == acc.args[j]);
                } else {
                    assert(acc2.args[j] == word);
                }
            }
            lemma_parse_toks_chars(rest, acc2, p);
            let sub = parse_toks(rest, acc2);
            assert forall|k: int| 0 <= k < res.name.len() implies p(res.name[k]) by {
                assert(res.name[k] == sub.name[k]);
            }
            assert forall|j: int, k: int|
                0 <= j < res.args.len() && 0 <= k < res.args[j].len() implies p(
                res.args[j][k],
            ) by {
                assert(res.args[j][k] == sub.args[j][k]);
            }
        }
    }
}

/// The record invariant the tokenizer guarantees: neither the command
/// name nor any argument of a tokenized line ever contains a space.
pub proof fn lemma_parse_no_space(line: Seq<char>)
    ensures
        forall|k: int| 0 <= k < spec_parse(line).name.len() ==> spec_parse(line).name[k] != ' ',
        forall|j: int, k: int|
            0 <= j < spec_parse(line).args.len() && 0 <= k < spec_parse(line).args[j].len()
                ==> spec_parse(line).args[j][k] != ' ',
{
    let p = |c: char| c != ' ';
    lemma_split_from_chars(line, 0, seq![], p);
    lemma_parse_toks_chars(spec_split(line), empty_command(), p);
}

/// Without a `&` anywhere in the tokens, processing never raises the
/// background flag.
proof fn lemma_parse_toks_bg(toks: Seq<Seq<char>>, acc: SpecCommand)
    requires
        forall|j: int, k: int| 0 <= j < toks.len() && 0 <= k < toks[j].len() ==> toks[j][k] != '&',
        !acc.background,
    ensures
        !parse_toks(toks, acc).background,
    decreases toks.len(),
{
    if toks.len() > 0 {
        let rest = toks.drop_first();
        assert forall|j: int, k: int|
            0 <= j < rest.len() && 0 <= k < rest[j].len() implies rest[j][k] != '&' by {
            assert(rest[j] == toks[j + 1]);
        }
        let t = spec_trim(toks[0]);
        lemma_trim_chars(toks[0], |c: char| c != '&');
        if t.len() == 0 {
            lemma_parse_toks_bg(rest, acc);
        } else if t[0] == '#' {
            // the record is returned unchanged
        } else {
            assert(t[0] != '&');
            assert(t.last() != '&');
            let acc2 = if acc.name.len() == 0 {
                SpecCommand { name: t, args: acc.args, background: acc.background }
            } else {
                SpecCommand { name: acc.name, args: acc.args.push(t), background: acc.background }
            };
            lemma_parse_toks_bg(rest, acc2);
        }
    }
}

/// The background flag is raised only by a `&` token: a line without a
/// `&` character always parses as a foreground command.
pub proof fn lemma_no_amp_no_background(line: Seq<char>)
    requires
        forall|k: int| 0 <= k < line.len() ==> line[k] != '&',
    ensures
        !spec_parse(line).background,
{
    lemma_split_from_chars(line, 0, seq![], |c: char| c != '&');
    lemma_parse_toks_bg(spec_split(line), empty_command());
}

/// Tokens that all trim to nothing carry no command.
proof fn lemma_all_blank_noop(toks: Seq<Seq<char>>)
    requires
        forall|j: int| 0 <= j < toks.len() ==> spec_trim(toks[j]).len() == 0,
    ensures
        noop_tokens(toks),
    decreases toks.len(),
{
    if toks.len() > 0 {
        lemma_all_blank_noop(toks.drop_first());
    }
}

} // verus!
