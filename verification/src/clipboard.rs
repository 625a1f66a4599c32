//! Copying a project's tasks as text and turning pasted text into tasks.
use vstd::prelude::*;
use crate::project::{LoadedProject, ProjectView};
use crate::task_map::{tm_len, tm_get};
use crate::text::{is_space, space, split_all, split_all_char, strs_view};

verus! {

/// Pasted text longer than this many bytes is ignored.
pub const PASTE_MAX_BYTES: usize = 30720;
/// At most this many tasks are made from one paste.
pub const PASTE_MAX_TASKS: usize = 50;
/// A pasted task keeps at most this many characters.
pub const PASTE_MAX_CHARS: usize = 300;

/// The task texts of a project, the main task first.
pub open spec fn task_texts(p: ProjectView) -> Seq<Seq<char>> {
    let main = if p.main.len() > 0 { seq![p.main[0].1.text] } else { Seq::empty() };
    main + p.subs.map_values(|e: (Seq<char>, crate::task_map::TaskView)| e.1.text)
}

/// Lines joined with a line feed between neighbours.
pub open spec fn join_lines(ls: Seq<Seq<char>>) -> Seq<char>
    decreases ls.len(),
{
    if ls.len() == 0 {
        Seq::empty()
    } else if ls.len() == 1 {
        ls[0]
    } else {
        join_lines(ls.drop_last()) + seq!['\n'] + ls.last()
    }
}

/// Bytes of `c` in UTF-8.
pub open spec fn utf8_width(c: char) -> nat {
    if (c as u32) < 0x80 { 1 } else if (c as u32) < 0x800 { 2 } else if (c as u32) < 0x10000 { 3 } else { 4 }
}

/// Bytes of `s` in UTF-8 (`str::len`).
pub open spec fn utf8_len(s: Seq<char>) -> nat
    decreases s.len(),
{
    if s.len() == 0 { 0 } else { utf8_len(s.drop_last()) + utf8_width(s.last()) }
}

/// Nothing but white space (`trim().is_empty()`).
pub open spec fn is_blank(s: Seq<char>) -> bool {
    forall|i: int| 0 <= i < s.len() ==> is_space(#[trigger] s[i])
}

/// A line without the carriage return before its line feed.
pub open spec fn strip_cr(s: Seq<char>) -> Seq<char> {
    if s.len() > 0 && s.last() == '\r' { s.drop_last() } else { s }
}

/// The lines of `s` (`str::lines`): cut at each line feed, a carriage
/// return just before a line feed dropped, no empty line after a final
/// line feed.
pub open spec fn text_lines(s: Seq<char>) -> Seq<Seq<char>> {
    let p = split_all(s, '\n');
    let k = if p.last().len() == 0 { p.len() - 1 } else { p.len() as int };
    Seq::new(k as nat, |i: int| if i < p.len() - 1 { strip_cr(p[i]) } else { p[i] })
}

/// The lines that are not blank, in order.
pub open spec fn non_blank(ls: Seq<Seq<char>>) -> Seq<Seq<char>>
    decreases ls.len(),
{
    if ls.len() == 0 {
        ls
    } else if is_blank(ls.last()) {
        non_blank(ls.drop_last())
    } else {
        non_blank(ls.drop_last()).push(ls.last())
    }
}

pub open spec fn first_chars(s: Seq<char>) -> Seq<char> {
    if s.len() <= PASTE_MAX_CHARS { s } else { s.take(PASTE_MAX_CHARS as int) }
}

/// The tasks a paste makes: none for text over the byte limit; else the
/// first non-blank lines, up to the task limit, each cut to the character
/// limit.
pub open spec fn pasted_tasks(s: Seq<char>) -> Seq<Seq<char>> {
    if utf8_len(s) > PASTE_MAX_BYTES {
        Seq::empty()
    } else {
        let ls = non_blank(text_lines(s));
        let n = if ls.len() <= PASTE_MAX_TASKS { ls.len() as int } else { PASTE_MAX_TASKS as int };
        ls.take(n).map_values(|l: Seq<char>| first_chars(l))
    }
}

proof fn lemma_split_all_nonempty(s: Seq<char>, c: char)
    ensures
        split_all(s, c).len() >= 1,
    decreases s.len(),
{
    let i = crate::text::index_of(s, c);
    if 0 <= i < s.len() {
        lemma_split_all_nonempty(s.subrange(i + 1, s.len() as int), c);
    }
}

/// Whether the UTF-8 size of `s` is over `limit`.
fn utf8_over(s: &str, limit: usize) -> (r: bool)
    ensures
        r == (utf8_len(s@) > limit),
{
    let n = s.unicode_len();
    let mut total: usize = 0;
    let mut i: usize = 0;
    while i < n
        invariant
            n == s@.len(),
            i <= n,
            total == utf8_len(s@.take(i as int)),
            total <= limit,
        decreases n - i,
    {
        let c = s.get_char(i);
        let u = c as u32;
        let w: usize = if u < 0x80 { 1 } else if u < 0x800 { 2 } else if u < 0x10000 { 3 } else { 4 };
        proof {
            assert(s@.take(i + 1).drop_last() =~= s@.take(i as int));
            assert(s@.take(i + 1).last() == c);
        }
        if w > limit - total {
            proof { lemma_utf8_len_prefix(s@, i + 1); }
            return true;
        }
        total = total + w;
        i = i + 1;
    }
    proof { assert(s@.take(n as int) =~= s@); }
    false
}

proof fn lemma_utf8_len_prefix(s: Seq<char>, k: int)
    requires
        0 <= k <= s.len(),
    ensures
        utf8_len(s.take(k)) <= utf8_len(s),
    decreases s.len() - k,
{
    if k < s.len() {
        lemma_utf8_len_prefix(s, k + 1);
        assert(s.take(k + 1).drop_last() =~= s.take(k));
    } else {
        assert(s.take(k) =~= s);
    }
}

/// The line of piece `p`; `ended` when a line feed followed it.
fn line_text(p: &str, ended: bool) -> (r: (bool, String))
    ensures
        r.0 == is_blank(if ended { strip_cr(p@) } else { p@ }),
        r.1@ == first_chars(if ended { strip_cr(p@) } else { p@ }),
{
    let n = p.unicode_len();
    let len = if ended && n > 0 && p.get_char(n - 1) == '\r' { n - 1 } else { n };
    let ghost line = if ended { strip_cr(p@) } else { p@ };
    assert(line =~= p@.take(len as int));
    let mut blank = true;
    let mut out = String::new();
    let mut i: usize = 0;
    while i < len
        invariant
            n == p@.len(),
            len <= n,
            line == p@.take(len as int),
            i <= len,
            blank == is_blank(line.take(i as int)),
            out@ == line.take(if i <= PASTE_MAX_CHARS { i as int } else { PASTE_MAX_CHARS as int }),
        decreases len - i,
    {
        let c = p.get_char(i);
        proof {
            assert(line[i as int] == c);
            assert(line.take(i + 1) =~= line.take(i as int).push(c));
            let a = line.take(i as int);
            let b = line.take(i + 1);
            if is_blank(a) && is_space(c) {
                assert forall|j: int| 0 <= j < b.len() implies is_space(#[trigger] b[j]) by {
                    if j < i { assert(b[j] == a[j]); }
                }
            }
            if is_blank(b) {
                assert(b[i as int] == c);
                assert forall|j: int| 0 <= j < a.len() implies is_space(#[trigger] a[j]) by {
                    assert(b[j] == a[j]);
                }
            }
        }
        if !space(c) {
            blank = false;
        }
        if i < PASTE_MAX_CHARS {
            crate::text::push_char(&mut out, c);
        }
        i = i + 1;
    }
    proof {
        assert(line.take(len as int) =~= line);
    }
    (blank, out)
}

/// The tasks a paste of `raw` makes (see `pasted_tasks`).
pub fn paste_lines(raw: &str) -> (r: Vec<String>)
    ensures
        r@.map_values(|t: String| t@) == pasted_tasks(raw@),
{
    if utf8_over(raw, PASTE_MAX_BYTES) {
        let r: Vec<String> = Vec::new();
        assert(r@.map_values(|t: String| t@) =~= pasted_tasks(raw@));
        return r;
    }
    let pieces = split_all_char(raw, '\n');
    let ghost p = split_all(raw@, '\n');
    proof { lemma_split_all_nonempty(raw@, '\n'); }
    let np = pieces.len();
    assert(strs_view(pieces@)[np - 1] == pieces@[np - 1]@);
    let k = if pieces[np - 1].unicode_len() == 0 { np - 1 } else { np };
    let ghost lines = text_lines(raw@);
    assert(lines.len() == k);
    let mut out: Vec<String> = Vec::new();
    let mut i: usize = 0;
    while i < k
        invariant
            strs_view(pieces@) == p,
            p == split_all(raw@, '\n'),
            np == p.len(),
            k <= np,
            lines == text_lines(raw@),
            lines.len() == k,
            i <= k,
            out@.map_values(|t: String| t@) == {
                let ls = non_blank(lines.take(i as int));
                let n = if ls.len() <= PASTE_MAX_TASKS { ls.len() as int } else { PASTE_MAX_TASKS as int };
                ls.take(n).map_values(|l: Seq<char>| first_chars(l))
            },
        decreases k - i,
    {
        let ended = i + 1 < np;
        assert(strs_view(pieces@)[i as int] == pieces@[i as int]@);
        let (blank, text) = line_text(pieces[i], ended);
        let ghost before = out@.map_values(|t: String| t@);
        proof {
            assert(lines[i as int] == if ended { strip_cr(p[i as int]) } else { p[i as int] });
            assert(lines.take(i + 1).drop_last() =~= lines.take(i as int));
            assert(lines.take(i + 1).last() == lines[i as int]);
        }
        proof {
            assert(blank == is_blank(lines[i as int]));
            assert(text@ == first_chars(lines[i as int]));
        }
        if !blank && out.len() < PASTE_MAX_TASKS {
            out.push(text);
            assert(out@.map_values(|t: String| t@) =~= before.push(text@));
        } else {
            assert(out@.map_values(|t: String| t@) == before);
        }
        proof {
            let ls0 = non_blank(lines.take(i as int));
            let ls1 = non_blank(lines.take(i + 1));
            let n0 = if ls0.len() <= PASTE_MAX_TASKS { ls0.len() as int } else { PASTE_MAX_TASKS as int };
            let n1 = if ls1.len() <= PASTE_MAX_TASKS { ls1.len() as int } else { PASTE_MAX_TASKS as int };
            assert(before.len() == n0);
            if !blank {
                assert(ls1 == ls0.push(lines[i as int]));
                if ls0.len() < PASTE_MAX_TASKS {
                    assert(ls1.take(n1) =~= ls0.take(n0).push(lines[i as int]));
                } else {
                    assert(ls1.take(n1) =~= ls0.take(n0));
                }
            } else {
                assert(ls1 == ls0);
            }
            assert(out@.map_values(|t: String| t@) =~= ls1.take(n1).map_values(|l: Seq<char>| first_chars(l)));
        }
        i = i + 1;
    }
    proof { assert(lines.take(k as int) =~= lines); }
    out
}

impl LoadedProject {
    /// The project's tasks as text, one per line, the main task first;
    /// `None` when it has none.
    pub fn copy_text(&self) -> (r: Option<String>)
        ensures
            match r {
                Some(t) => task_texts(self@).len() > 0 && t@ == join_lines(task_texts(self@)),
                None => task_texts(self@).len() == 0,
            },
    {
        let ghost texts = task_texts(self@);
        let mut out = String::new();
        let has_main = match self.main_text() {
            Some(t) => {
                append_line(&mut out, &t, false);
                true
            },
            None => false,
        };
        let ghost m: int = if has_main { 1 } else { 0 };
        assert(out@ == join_lines(texts.take(m)));
        let n = tm_len(&self.subs);
        let mut i: usize = 0;
        while i < n
            invariant
                n == self@.subs.len(),
                texts == task_texts(self@),
                texts.len() == m + n,
                m == if has_main { 1int } else { 0int },
                i <= n,
                out@ == join_lines(texts.take(m + i)),
            decreases n - i,
        {
            match tm_get(&self.subs, i) {
                Some(e) => {
                    proof {
                        assert(texts[m + i] == e.1@.text);
                        assert(texts.take(m + i + 1).drop_last() =~= texts.take(m + i));
                    }
                    append_line(&mut out, &e.1.text, has_main || i > 0);
                },
                None => {},
            }
            i = i + 1;
        }
        proof { assert(texts.take(m + n) =~= texts); }
        if has_main || n > 0 { Some(out) } else { None }
    }
}

/// Adds `line` to `out`, after a line feed when `after` is set.
fn append_line(out: &mut String, line: &String, after: bool)
    ensures
        final(out)@ == if after { old(out)@ + seq!['\n'] + line@ } else { old(out)@ + line@ },
{
    if after {
        crate::text::push_char(out, '\n');
    }
    let n = line.as_str().unicode_len();
    let ghost start = out@;
    let mut i: usize = 0;
    while i < n
        invariant
            n == line@.len(),
            i <= n,
            out@ == start + line@.take(i as int),
        decreases n - i,
    {
        let c = line.as_str().get_char(i);
        crate::text::push_char(out, c);
        proof { assert(line@.take(i + 1) =~= line@.take(i as int).push(c)); }
        i = i + 1;
    }
    proof { assert(line@.take(n as int) =~= line@); }
}

} // verus!
