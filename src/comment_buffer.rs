//! A bounded buffer of display lines: each pushed comment is wrapped greedily
//! to the display width, and only the newest `height` lines are kept.
use std::collections::VecDeque;

use unicode_width::UnicodeWidthChar;
use vstd::prelude::*;
use vstd::string::StrSliceExecFns;

use crate::text::push_char;

verus! {

/// What `unicode_width`'s `width_cjk` gives for a character: its display
/// width in columns, ambiguous characters counted as two, `None` for a
/// control character.
pub uninterp spec fn cjk_width_of(c: char) -> Option<usize>;

/// Relies on `UnicodeWidthChar::width_cjk` of `unicode_width`: a table lookup
/// that depends on the character alone.
#[verifier::external_body]
fn char_width_cjk(c: char) -> (r: Option<usize>)
    ensures
        r == cjk_width_of(c),
{
    c.width_cjk()
}

/// The columns that a character takes; a control character takes none.
pub open spec fn columns_of(c: char) -> nat {
    match cjk_width_of(c) {
        Some(w) => w as nat,
        None => 0,
    }
}

/// The columns of each character of `s`.
pub open spec fn columns(s: Seq<char>) -> Seq<nat> {
    s.map_values(|c: char| columns_of(c))
}

/// Widths given as machine integers, as natural numbers.
pub open spec fn widths_of(ws: Seq<usize>) -> Seq<nat> {
    ws.map_values(|w: usize| w as nat)
}

/// The state of the greedy wrap after reading `s`, whose characters take
/// `ws[i]` columns each: the lines already closed, the line being filled, and
/// the columns that line takes. A character that would make the current line
/// wider than `width` closes it first.
pub open spec fn wrap_state(s: Seq<char>, ws: Seq<nat>, width: nat) -> (Seq<Seq<char>>, Seq<char>, nat)
    decreases s.len(),
{
    if s.len() == 0 {
        (Seq::empty(), Seq::empty(), 0)
    } else {
        let prev = wrap_state(s.drop_last(), ws.drop_last(), width);
        let c = s.last();
        let w = ws.last();
        if prev.2 + w > width {
            (prev.0.push(prev.1), seq![c], w)
        } else {
            (prev.0, prev.1.push(c), prev.2 + w)
        }
    }
}

/// The lines that a comment is wrapped into: the closed lines, then the last
/// one if it holds anything.
pub open spec fn wrap_lines(s: Seq<char>, ws: Seq<nat>, width: nat) -> Seq<Seq<char>> {
    let st = wrap_state(s, ws, width);
    if st.1.len() == 0 {
        st.0
    } else {
        st.0.push(st.1)
    }
}

/// The newest `height` lines of `lines` (all of them if there are fewer).
pub open spec fn keep_last(lines: Seq<Seq<char>>, height: nat) -> Seq<Seq<char>> {
    if lines.len() > height {
        lines.subrange(lines.len() - height, lines.len() as int)
    } else {
        lines
    }
}

/// The text of each string, in order.
pub open spec fn texts(v: Seq<String>) -> Seq<Seq<char>> {
    v.map_values(|s: String| s@)
}

pub struct CommentBuffer {
    comments: VecDeque<String>,
    width: usize,
    height: usize,
}

impl CommentBuffer {
    /// The lines held, oldest first.
    pub closed spec fn lines(&self) -> Seq<Seq<char>> {
        texts(self.comments@)
    }

    pub closed spec fn spec_width(&self) -> nat {
        self.width as nat
    }

    pub closed spec fn spec_height(&self) -> nat {
        self.height as nat
    }

    pub fn new(width: usize, height: usize) -> (r: Self)
        ensures
            r.lines() == Seq::<Seq<char>>::empty(),
            r.spec_width() == width,
            r.spec_height() == height,
    {
        let r = Self { comments: VecDeque::new(), width, height };
        assert(r.lines() =~= Seq::<Seq<char>>::empty());
        r
    }

    /// Wraps `comment` into lines of at most `width` columns, measuring each
    /// character with its CJK display width (a character wider than the line
    /// stands on a line of its own), appends them, and drops the oldest lines
    /// beyond `height`.
    pub fn push(&mut self, comment: String)
        ensures
            final(self).lines() == keep_last(
                old(self).lines() + wrap_lines(comment@, columns(comment@), old(self).spec_width()),
                old(self).spec_height(),
            ),
            final(self).spec_width() == old(self).spec_width(),
            final(self).spec_height() == old(self).spec_height(),
    {
        let ghost s = comment@;
        let n = comment.as_str().unicode_len();
        let mut widths: Vec<usize> = Vec::new();
        let mut i: usize = 0;
        while i < n
            invariant
                n == s.len(),
                s == comment@,
                i <= n,
                widths@.len() == i,
                forall|j: int| 0 <= j < i ==> widths@[j] as nat == columns_of(s[j]),
            decreases n - i,
        {
            let c = comment.as_str().get_char(i);
            let w = match char_width_cjk(c) {
                Some(w) => w,
                None => 0,
            };
            widths.push(w);
            i = i + 1;
        }
        assert(widths_of(widths@) =~= columns(s));
        self.push_measured(comment.as_str(), widths.as_slice());
    }

    /// Wraps `comment`, whose characters take `widths[i]` columns each, into
    /// lines of at most `width` columns, appends them, and drops the oldest
    /// lines beyond `height`.
    pub fn push_measured(&mut self, comment: &str, widths: &[usize])
        requires
            widths@.len() == comment@.len(),
        ensures
            final(self).lines() == keep_last(
                old(self).lines() + wrap_lines(comment@, widths_of(widths@), old(self).spec_width()),
                old(self).spec_height(),
            ),
            final(self).spec_width() == old(self).spec_width(),
            final(self).spec_height() == old(self).spec_height(),
    {
        let ghost s = comment@;
        let ghost ws = widths_of(widths@);
        let ghost width = self.width as nat;
        let ghost before = self.lines();
        let mut current_line = String::new();
        let mut current_width: usize = 0;
        let n = comment.unicode_len();
        let mut i: usize = 0;
        while i < n
            invariant
                n == s.len(),
                s == comment@,
                ws == widths_of(widths@),
                widths@.len() == n,
                i <= n,
                width == self.width,
                self.width == old(self).width,
                self.height == old(self).height,
                before == old(self).lines(),
                ({
                    let st = wrap_state(s.subrange(0, i as int), ws.subrange(0, i as int), width);
                    &&& self.lines() == before + st.0
                    &&& current_line@ == st.1
                    &&& current_width == st.2
                }),
            decreases n - i,
        {
            let c = comment.get_char(i);
            let c_width = widths[i];
            assert(s.subrange(0, i + 1).drop_last() =~= s.subrange(0, i as int));
            assert(ws.subrange(0, i + 1).drop_last() =~= ws.subrange(0, i as int));
            if c_width > self.width || current_width > self.width - c_width {
                let ghost old_lines = self.lines();
                let done = current_line;
                self.comments.push_back(done);
                assert(self.lines() =~= old_lines.push(done@));
                current_line = String::new();
                current_width = 0;
            }
            push_char(&mut current_line, c);
            current_width = current_width + c_width;
            i = i + 1;
        }
        assert(s.subrange(0, n as int) =~= s);
        assert(ws.subrange(0, n as int) =~= ws);
        if current_line.as_str().unicode_len() > 0 {
            let ghost old_lines = self.lines();
            self.comments.push_back(current_line);
            assert(self.lines() =~= old_lines.push(wrap_state(s, ws, width).1));
        }
        let ghost all = self.lines();
        assert(all =~= before + wrap_lines(s, ws, width));
        while self.comments.len() > self.height
            invariant
                self.height == old(self).height,
                self.width == old(self).width,
                all.len() >= self.comments@.len(),
                self.lines() =~= all.subrange(all.len() - self.comments@.len(), all.len() as int),
                self.comments@.len() >= (if all.len() > self.height { self.height as int } else { all.len() as int }),
            decreases self.comments@.len(),
        {
            let ghost prev = self.comments@;
            self.comments.pop_front();
            assert(self.comments@ =~= prev.subrange(1, prev.len() as int));
            assert(self.lines() =~= texts(prev).subrange(1, prev.len() as int));
        }
    }

    pub fn comments(&self) -> (r: &VecDeque<String>)
        ensures
            texts(r@) == self.lines(),
    {
        &self.comments
    }
}

} // verus!
