//! Reporting a lexing error with the source lines around it.
use vstd::prelude::*;
use crate::context::strings_view;
use crate::lexer::{lexer_error_message, LexerError};
use crate::text::{chars_of, decimal, owned, push_char, push_decimal, push_str, string_from_chars};

verus! {

/// A line without the carriage return that ended it.
pub open spec fn strip_cr(l: Seq<char>) -> Seq<char> {
    if l.len() > 0 && l.last() == '\r' {
        l.drop_last()
    } else {
        l
    }
}

/// The lines of `s` after the characters `cur` of an unfinished line.
pub open spec fn lines_from(s: Seq<char>, cur: Seq<char>) -> Seq<Seq<char>>
    decreases s.len(),
{
    if s.len() == 0 {
        if cur.len() == 0 {
            seq![]
        } else {
            seq![cur]
        }
    } else if s[0] == '\n' {
        seq![strip_cr(cur)] + lines_from(s.drop_first(), seq![])
    } else {
        lines_from(s.drop_first(), cur.push(s[0]))
    }
}

/// The lines of a text: split at each line feed, without a carriage return before it; a
/// final line feed ends the last line and starts none.
pub open spec fn source_lines(s: Seq<char>) -> Seq<Seq<char>> {
    lines_from(s, seq![])
}

pub open spec fn spaces(n: nat) -> Seq<char> {
    Seq::new(n, |i: int| ' ')
}

/// `t` right-aligned in a field `w` wide.
pub open spec fn pad_left(t: Seq<char>, w: nat) -> Seq<char> {
    if t.len() < w {
        spaces((w - t.len()) as nat) + t
    } else {
        t
    }
}

/// `line` with the character at `col` marked in red.
pub open spec fn highlight(line: Seq<char>, col: int) -> Seq<char> {
    if 0 <= col < line.len() {
        line.take(col) + "$red|"@ + seq![line[col]] + "$reset|"@ + line.skip(col + 1)
    } else {
        line
    }
}

/// A numbered source line.
pub open spec fn numbered(n: nat, width: nat, text: Seq<char>) -> Seq<char> {
    "$cyan|"@ + pad_left(decimal(n), width) + "$reset| | "@ + text
}

/// The report of a lexing error: the message, then the line before the error, the line of
/// the error with the character marked and a pointer under it, and the line after it, as
/// far as the source has them. The lines hold colour tags.
pub open spec fn lexer_report(e: crate::lexer::LexerErrorView, src: Seq<char>) -> Seq<Seq<char>> {
    let lines = source_lines(src);
    let line_idx = if e.line > 0 { e.line - 1 } else { 0 };
    let col_idx = if e.col > 0 { e.col - 1 } else { 0 };
    let width = decimal((e.line + 1) as nat).len();
    let head = seq!["$red|error:$reset| "@ + lexer_error_message(e)];
    let before = if line_idx >= 1 && line_idx - 1 < lines.len() {
        seq![numbered((line_idx - 1 + 1) as nat, width, lines[line_idx - 1])]
    } else {
        seq![]
    };
    let at = if line_idx < lines.len() {
        seq![
            numbered(e.line as nat, width, highlight(lines[line_idx], col_idx)),
            spaces(width) + " | "@ + spaces(col_idx as nat) + "$red|^$reset|"@,
        ]
    } else {
        seq![]
    };
    let after = if line_idx + 1 < lines.len() {
        seq![numbered((e.line + 1) as nat, width, lines[line_idx + 1])]
    } else {
        seq![]
    };
    head + before + at + after
}

/// The lines of `text`, as `source_lines` gives them.
pub fn split_lines(text: &str) -> (r: Vec<String>)
    ensures
        strings_view(r@) == source_lines(text@),
{
    let chars = chars_of(text);
    let ghost all = chars@;
    let mut done: Vec<String> = Vec::new();
    let mut cur: Vec<char> = Vec::new();
    assert(all.skip(0) =~= all);
    assert(strings_view(done@) =~= Seq::<Seq<char>>::empty());
    let mut i: usize = 0;
    while i < chars.len()
        invariant
            all == chars@,
            all == text@,
            i <= all.len(),
            source_lines(all) == strings_view(done@) + lines_from(all.skip(i as int), cur@),
        decreases all.len() - i,
    {
        let ghost rest = all.skip(i as int);
        assert(rest[0] == all[i as int]);
        assert(rest.drop_first() =~= all.skip(i + 1));
        let c = chars[i];
        if c == '\n' {
            let n = cur.len();
            let line = if n > 0 && cur[n - 1] == '\r' {
                let mut t = String::new();
                let mut k: usize = 0;
                while k < n - 1
                    invariant
                        n == cur@.len(),
                        n > 0,
                        k <= n - 1,
                        t@ == cur@.take(k as int),
                    decreases n - 1 - k,
                {
                    push_char(&mut t, cur[k]);
                    assert(cur@.take(k + 1) =~= cur@.take(k as int).push(cur@[k as int]));
                    k = k + 1;
                }
                assert(cur@.take((n - 1) as int) =~= cur@.drop_last());
                t
            } else {
                string_from_chars(&cur)
            };
            let ghost before = strings_view(done@);
            let ghost l = line@;
            assert(l == strip_cr(cur@));
            done.push(line);
            assert(strings_view(done@) =~= before.push(l));
            assert(before + (seq![l] + lines_from(all.skip(i + 1), seq![])) =~= before.push(l)
                + lines_from(all.skip(i + 1), seq![]));
            cur = Vec::new();
            assert(cur@ =~= Seq::<char>::empty());
        } else {
            cur.push(c);
        }
        i = i + 1;
    }
    let ghost before = strings_view(done@);
    assert(all.skip(i as int) =~= Seq::<char>::empty());
    if cur.len() > 0 {
        let line = string_from_chars(&cur);
        let ghost l = line@;
        done.push(line);
        assert(strings_view(done@) =~= before.push(l));
        assert(before + seq![l] =~= before.push(l));
    } else {
        assert(before + Seq::<Seq<char>>::empty() =~= before);
    }
    done
}

fn push_spaces(s: &mut String, n: usize)
    ensures
        final(s)@ == old(s)@ + spaces(n as nat),
{
    let mut i: usize = 0;
    while i < n
        invariant
            i <= n,
            s@ == old(s)@ + spaces(i as nat),
        decreases n - i,
    {
        push_char(s, ' ');
        assert(old(s)@ + spaces((i + 1) as nat) =~= (old(s)@ + spaces(i as nat)).push(' '));
        i = i + 1;
    }
}

fn decimal_string(n: usize) -> (s: String)
    ensures
        s@ == decimal(n as nat),
{
    let mut s = String::new();
    push_decimal(&mut s, n as u64);
    assert(s@ =~= decimal(n as nat));
    s
}

fn numbered_line(n: usize, width: usize, text: &str) -> (s: String)
    ensures
        s@ == numbered(n as nat, width as nat, text@),
{
    let digits = decimal_string(n);
    let mut s = owned("$cyan|");
    let len = chars_of(digits.as_str()).len();
    if len < width {
        push_spaces(&mut s, width - len);
    }
    push_str(&mut s, digits.as_str());
    push_str(&mut s, "$reset| | ");
    push_str(&mut s, text);
    assert(s@ =~= numbered(n as nat, width as nat, text@));
    s
}

/// The report of a lexing error in its source, as lines that still hold colour tags.
pub fn print_lexer_err(err: &LexerError, src_file: &str) -> (r: Vec<String>)
    requires
        err.line < usize::MAX,
    ensures
        strings_view(r@) == lexer_report(err@, src_file@),
{
    let lines = split_lines(src_file);
    let line_idx = if err.line > 0 {
        err.line - 1
    } else {
        0
    };
    let col_idx = if err.char > 0 {
        err.char - 1
    } else {
        0
    };
    let width_digits = decimal_string(err.line + 1);
    let line_width = chars_of(width_digits.as_str()).len();
    let mut out: Vec<String> = Vec::new();
    let mut head = owned("$red|error:$reset| ");
    let msg = err.message();
    push_str(&mut head, msg.as_str());
    out.push(head);
    let ghost lv = strings_view(lines@);
    if line_idx >= 1 && line_idx - 1 < lines.len() {
        out.push(numbered_line(line_idx, line_width, lines[line_idx - 1].as_str()));
    }
    if line_idx < lines.len() {
        let line = chars_of(lines[line_idx].as_str());
        let mut highlighted = String::new();
        let mut i: usize = 0;
        while i < line.len()
            invariant
                i <= line@.len(),
                highlighted@ == (if col_idx < i {
                    line@.take(col_idx as int) + "$red|"@ + seq![line@[col_idx as int]] + "$reset|"@
                        + line@.subrange(col_idx + 1, i as int)
                } else {
                    line@.take(i as int)
                }),
            decreases line@.len() - i,
        {
            let ghost before = highlighted@;
            if i == col_idx {
                push_str(&mut highlighted, "$red|");
                push_char(&mut highlighted, line[i]);
                push_str(&mut highlighted, "$reset|");
                assert(line@.subrange(col_idx + 1, i + 1) =~= Seq::<char>::empty());
                assert(highlighted@ =~= line@.take(col_idx as int) + "$red|"@ + seq![line@[col_idx as int]]
                    + "$reset|"@ + line@.subrange(col_idx + 1, i + 1));
            } else {
                push_char(&mut highlighted, line[i]);
                if col_idx < i {
                    assert(line@.subrange(col_idx + 1, i + 1) =~= line@.subrange(col_idx + 1, i as int).push(line@[i as int]));
                } else {
                    assert(line@.take(i + 1) =~= line@.take(i as int).push(line@[i as int]));
                }
            }
            i = i + 1;
        }
        proof {
            if col_idx < line@.len() {
                assert(line@.subrange(col_idx + 1, line@.len() as int) =~= line@.skip(col_idx + 1));
            } else {
                assert(line@.take(line@.len() as int) =~= line@);
            }
        }
        out.push(numbered_line(err.line, line_width, highlighted.as_str()));
        let mut pointer = String::new();
        push_spaces(&mut pointer, line_width);
        push_str(&mut pointer, " | ");
        push_spaces(&mut pointer, col_idx);
        push_str(&mut pointer, "$red|^$reset|");
        out.push(pointer);
    }
    if line_idx + 1 < lines.len() {
        out.push(numbered_line(err.line + 1, line_width, lines[line_idx + 1].as_str()));
    }
    assert(strings_view(out@) =~= lexer_report(err@, src_file@));
    out
}

} // verus!
