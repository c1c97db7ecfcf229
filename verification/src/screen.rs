use vstd::prelude::*;

verus! {

/// Commands for a screen.
#[derive(Debug)]
pub enum ScreenCommand {
    /// Draw lines of text to the screen.
    Draw(Vec<String>),
    /// Set the status message at the bottom of the screen.
    SetStatus(String),
}

/// Truncate a unicode string with possible multibyte characters to at
/// most `max_chars` characters.
pub fn truncate<'a>(s: &'a str, max_chars: usize) -> (r: &'a str)
    ensures
        s@.len() <= max_chars ==> r@ == s@,
        s@.len() > max_chars ==> r@ == s@.take(max_chars as int),
{
    let n = s.unicode_len();
    if n <= max_chars {
        s
    } else {
        let r = s.substring_char(0, max_chars);
        proof {
            assert(r@ =~= s@.take(max_chars as int));
        }
        r
    }
}

/// How many of `n_lines` text lines fit above the status line of a
/// terminal `rows` rows tall.
pub fn visible_line_count(rows: u16, n_lines: usize) -> (r: usize)
    requires
        rows >= 1,
        n_lines >= 1,
    ensures
        r == if (rows - 1) as usize <= n_lines - 1 {
            (rows - 1) as usize
        } else {
            (n_lines - 1) as usize
        },
{
    let cap = (rows - 1) as usize;
    if cap <= n_lines - 1 {
        cap
    } else {
        n_lines - 1
    }
}

/// The text segments of `text` between its `\n` characters: one more
/// segment than there are `\n`s, in order.
pub open spec fn segments_acc(s: Seq<char>, cur: Seq<char>) -> Seq<Seq<char>>
    decreases s.len(),
{
    if s.len() == 0 {
        seq![cur]
    } else if s[0] == '\n' {
        seq![cur] + segments_acc(s.drop_first(), Seq::empty())
    } else {
        segments_acc(s.drop_first(), cur.push(s[0]))
    }
}

pub open spec fn segments(s: Seq<char>) -> Seq<Seq<char>> {
    segments_acc(s, Seq::empty())
}

/// Split page text on `\n`, keeping every segment, as a pager shows it.
pub fn split_text_lines(text: &str) -> (r: Vec<String>)
    ensures
        r@.map(|i: int, s: String| s@) == segments(text@),
{
    let n = text.unicode_len();
    let mut lines: Vec<String> = Vec::new();
    let mut start: usize = 0;
    let mut i: usize = 0;
    proof {
        assert(text@.subrange(0, n as int) =~= text@);
        assert(text@.subrange(0, 0) =~= Seq::<char>::empty());
        assert(lines@.map(|k: int, s: String| s@) =~= Seq::<Seq<char>>::empty());
        assert(Seq::<Seq<char>>::empty() + segments_acc(text@, Seq::empty()) =~= segments_acc(
            text@,
            Seq::empty(),
        ));
    }
    while i < n
        invariant
            start <= i <= n,
            n == text@.len(),
            segments(text@) == lines@.map(|k: int, s: String| s@) + segments_acc(
                text@.subrange(i as int, n as int),
                text@.subrange(start as int, i as int),
            ),
        decreases n - i,
    {
        let ghost rest = text@.subrange(i as int, n as int);
        let ghost cur = text@.subrange(start as int, i as int);
        proof {
            assert(rest[0] == text@[i as int]);
            assert(rest.drop_first() =~= text@.subrange(i as int + 1, n as int));
        }
        let c = text.get_char(i);
        if c == '\n' {
            let line = text.substring_char(start, i);
            let owned = line.to_owned();
            lines.push(owned);
            proof {
                assert(lines@.map(|k: int, s: String| s@) =~= lines@.drop_last().map(
                    |k: int, s: String| s@,
                ) + seq![cur]);
                assert(text@.subrange(i as int + 1, i as int + 1) =~= Seq::<char>::empty());
                assert((lines@.drop_last().map(|k: int, s: String| s@) + seq![cur])
                    + segments_acc(rest.drop_first(), Seq::empty()) =~= lines@.drop_last().map(
                    |k: int, s: String| s@,
                ) + (seq![cur] + segments_acc(rest.drop_first(), Seq::empty())));
            }
            start = i + 1;
        } else {
            proof {
                assert(cur.push(text@[i as int]) =~= text@.subrange(
                    start as int,
                    i as int + 1,
                ));
            }
        }
        i = i + 1;
    }
    let last = text.substring_char(start, n);
    lines.push(last.to_owned());
    proof {
        assert(segments_acc(text@.subrange(n as int, n as int), text@.subrange(
            start as int,
            n as int,
        )) == seq![text@.subrange(start as int, n as int)]);
        assert(lines@.map(|k: int, s: String| s@) =~= lines@.drop_last().map(
            |k: int, s: String| s@,
        ) + seq![text@.subrange(start as int, n as int)]);
    }
    lines
}

/// A page of text and the index of its top visible line.
#[derive(Debug)]
pub struct Pager {
    pub lines: Vec<String>,
    pub cursor: usize,
}

impl Pager {
    /// A pager showing `text` from its first line.
    pub fn new(text: &str) -> (r: Pager)
        ensures
            r.lines@.map(|i: int, s: String| s@) == segments(text@),
            r.cursor == 0,
            r.lines@.len() >= 1,
    {
        let lines = split_text_lines(text);
        proof {
            assert(segments(text@).len() >= 1) by {
                lemma_segments_nonempty(text@, Seq::empty());
            }
        }
        Pager { lines, cursor: 0 }
    }

    /// Scroll one line down, keeping the last line in view: the cursor
    /// never passes two short of the line count.
    pub fn scroll_down(&mut self)
        ensures
            final(self).lines@ == old(self).lines@,
            final(self).cursor as int == if old(self).lines@.len() >= 2 && old(self).cursor
                < old(self).lines@.len() - 2 {
                old(self).cursor + 1
            } else {
                old(self).cursor as int
            },
    {
        if self.lines.len() >= 2 && self.cursor < self.lines.len() - 2 {
            self.cursor = self.cursor + 1;
        }
    }

    /// Scroll one line up, stopping at the top.
    pub fn scroll_up(&mut self)
        ensures
            final(self).lines@ == old(self).lines@,
            final(self).cursor == if old(self).cursor > 0 {
                old(self).cursor - 1
            } else {
                0
            },
    {
        if self.cursor > 0 {
            self.cursor = self.cursor - 1;
        }
    }
}

proof fn lemma_segments_nonempty(s: Seq<char>, cur: Seq<char>)
    ensures
        segments_acc(s, cur).len() >= 1,
    decreases s.len(),
{
    if s.len() == 0 {
    } else if s[0] == '\n' {
        lemma_segments_nonempty(s.drop_first(), Seq::empty());
    } else {
        lemma_segments_nonempty(s.drop_first(), cur.push(s[0]));
    }
}

} // verus!
