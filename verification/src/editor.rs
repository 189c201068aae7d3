//! Text-buffer model for the simple editor.
//!
//! The editor widget owns the keystrokes; this model owns the meaning
//! of the buffer operations the helpers perform on it: holding text,
//! highlighting a range, and replacing the highlighted range with new
//! text.  Positions count characters, `start` inclusive to `end`
//! exclusive.

use crate::error::ErrorKind;
use vstd::prelude::*;

verus! {

/// An editable text buffer with an optional highlighted range.
pub struct EditorBuffer {
    text: Vec<char>,
    selection: Option<(usize, usize)>,
}

impl EditorBuffer {
    /// The buffer contents.
    pub closed spec fn spec_text(self) -> Seq<char> {
        self.text@
    }

    /// The highlighted range, if any.
    pub closed spec fn spec_selection(self) -> Option<(usize, usize)> {
        self.selection
    }

    /// A highlighted range lies within the text.
    pub open spec fn well_formed(self) -> bool {
        match self.spec_selection() {
            Some((start, end)) => start <= end <= self.spec_text().len(),
            None => true,
        }
    }

    /// An empty buffer with nothing highlighted.
    pub fn new() -> (buf: Self)
        ensures
            buf.well_formed(),
            buf.spec_text() == Seq::<char>::empty(),
            buf.spec_selection() is None,
    {
        EditorBuffer { text: Vec::new(), selection: None }
    }

    /// Replace the whole contents, dropping any highlight.
    pub fn set_text(&mut self, text: Vec<char>)
        ensures
            final(self).well_formed(),
            final(self).spec_text() == text@,
            final(self).spec_selection() is None,
    {
        self.text = text;
        self.selection = None;
    }

    /// The current contents.
    pub fn text(&self) -> (r: &Vec<char>)
        ensures
            r@ == self.spec_text(),
    {
        &self.text
    }

    /// The highlighted range, if any.
    pub fn selection_position(&self) -> (r: Option<(usize, usize)>)
        ensures
            r == self.spec_selection(),
    {
        self.selection
    }

    /// Highlight the characters from `start` to `end`.  A range that
    /// does not lie within the text is rejected and changes nothing.
    pub fn select_range(&mut self, start: usize, end: usize) -> (r: Result<(), ErrorKind>)
        requires
            old(self).well_formed(),
        ensures
            final(self).well_formed(),
            final(self).spec_text() == old(self).spec_text(),
            r is Ok <==> start <= end <= old(self).spec_text().len(),
            r is Ok ==> final(self).spec_selection() == Some((start, end)),
            r is Err ==> r == Err::<(), ErrorKind>(ErrorKind::InvalidInput) && *final(self)
                == *old(self),
    {
        if start <= end && end <= self.text.len() {
            self.selection = Some((start, end));
            Ok(())
        } else {
            Err(ErrorKind::InvalidInput)
        }
    }

    /// Drop the highlight, keeping the text.
    pub fn unselect(&mut self)
        requires
            old(self).well_formed(),
        ensures
            final(self).well_formed(),
            final(self).spec_text() == old(self).spec_text(),
            final(self).spec_selection() is None,
    {
        self.selection = None;
    }

    /// Replace the highlighted range with `rpltxt` and drop the
    /// highlight: the new contents are the text before the highlight,
    /// then `rpltxt`, then the text after it.  With nothing
    /// highlighted, nothing changes and the caller is told so.
    pub fn replace_selection(&mut self, rpltxt: &Vec<char>) -> (r: Result<(), ErrorKind>)
        requires
            old(self).well_formed(),
        ensures
            final(self).well_formed(),
            r is Ok <==> old(self).spec_selection() is Some,
            old(self).spec_selection() matches Some((start, end)) ==> {
                &&& final(self).spec_text() == old(self).spec_text().take(start as int) + rpltxt@
                    + old(self).spec_text().skip(end as int)
                &&& final(self).spec_selection() is None
            },
            r is Err ==> r == Err::<(), ErrorKind>(ErrorKind::NoSelection) && *final(self)
                == *old(self),
    {
        match self.selection {
            None => Err(ErrorKind::NoSelection),
            Some((start, end)) => {
                let ghost oldtext = self.text@;
                let n = self.text.len();
                let mut newtext: Vec<char> = Vec::new();
                let mut i: usize = 0;
                while i < start
                    invariant
                        i <= start,
                        start <= n,
                        n == self.text.len(),
                        oldtext == self.text@,
                        newtext@ == oldtext.take(i as int),
                    decreases start - i,
                {
                    newtext.push(self.text[i]);
                    proof {
                        assert(newtext@ =~= oldtext.take(i + 1));
                    }
                    i += 1;
                }
                let m = rpltxt.len();
                let mut j: usize = 0;
                while j < m
                    invariant
                        j <= m,
                        m == rpltxt.len(),
                        start <= n,
                        newtext@ == oldtext.take(start as int) + rpltxt@.take(j as int),
                    decreases m - j,
                {
                    newtext.push(rpltxt[j]);
                    proof {
                        assert(newtext@ =~= oldtext.take(start as int) + rpltxt@.take(j + 1));
                    }
                    j += 1;
                }
                proof {
                    assert(rpltxt@.take(m as int) =~= rpltxt@);
                }
                let mut k: usize = end;
                while k < n
                    invariant
                        end <= k <= n,
                        n == self.text.len(),
                        oldtext == self.text@,
                        newtext@ == oldtext.take(start as int) + rpltxt@ + oldtext.subrange(
                            end as int,
                            k as int,
                        ),
                    decreases n - k,
                {
                    newtext.push(self.text[k]);
                    proof {
                        assert(newtext@ =~= oldtext.take(start as int) + rpltxt@
                            + oldtext.subrange(end as int, k + 1));
                    }
                    k += 1;
                }
                proof {
                    assert(oldtext.subrange(end as int, n as int) =~= oldtext.skip(end as int));
                }
                self.text = newtext;
                self.selection = None;
                Ok(())
            },
        }
    }
}

} // verus!
