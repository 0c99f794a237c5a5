//! Tokenization: reentrant delimiter-driven token extraction over C
//! strings, and iterator-style tokenizers over byte slices.

use vstd::prelude::*;

use crate::search::slice_contains;
use crate::specs::{lemma_scan_in_is, lemma_scan_not_in_is, lemma_term_len, scan_in, scan_not_in};
use crate::strings::{cstr_len, strlen};
use crate::types::wchar_t;
use crate::wide::{wcslen, wide_contains, wstr_len};

verus! {

broadcast use vstd::slice::group_slice_axioms;

/// Reentrant tokenizer over the C string in `s`: skip delimiters from the
/// saved position, return the next maximal delimiter-free run, and park
/// the saved position after the delimiter that ended it. Initialize
/// `*saveptr = 0` before the first call.
pub fn strtok_r<'a>(s: &'a [u8], delim: &[u8], saveptr: &mut usize) -> (r: Option<&'a [u8]>)
    requires
        s@.len() < usize::MAX,
    ensures
        ({
            let len = cstr_len(s@);
            let st = s@.take(len);
            let dt = delim@.take(cstr_len(delim@));
            if *old(saveptr) > len {
                r is None && *final(saveptr) == *old(saveptr)
            } else {
                let start = scan_in(st, dt, *old(saveptr) as int);
                if start >= len {
                    r is None && *final(saveptr) == len + 1
                } else {
                    let end = scan_not_in(st, dt, start);
                    &&& (match r {
                        Some(t) => t@ == st.subrange(start, end),
                        None => false,
                    })
                    &&& *final(saveptr) == if end < len {
                        end + 1
                    } else {
                        len + 1
                    }
                }
            }
        }),
{
    proof {
        lemma_term_len(s@, 0u8);
        lemma_term_len(delim@, 0u8);
    }
    let len = strlen(s);
    let delim_len = strlen(delim);
    let st = vstd::slice::slice_subrange(s, 0, len);
    let dt = vstd::slice::slice_subrange(delim, 0, delim_len);
    proof {
        assert(st@ =~= s@.take(len as int));
        assert(dt@ =~= delim@.take(cstr_len(delim@)));
    }
    if *saveptr > len {
        return None;
    }
    let mut pos: usize = *saveptr;
    let ghost p0 = pos as int;
    while pos < len && slice_contains(dt, st[pos])
        invariant
            p0 <= pos as int <= len,
            len == st@.len(),
            st@ == s@.take(cstr_len(s@)),
            dt@ == delim@.take(cstr_len(delim@)),
            len == cstr_len(s@) < usize::MAX,
            forall|j: int| p0 <= j < pos as int ==> dt@.contains(st@[j]),
        decreases len - pos,
    {
        pos = pos + 1;
    }
    proof {
        lemma_scan_in_is(st@, dt@, p0, pos as int);
    }
    if pos >= len {
        *saveptr = len + 1;
        return None;
    }
    let start: usize = pos;
    while pos < len && !slice_contains(dt, st[pos])
        invariant
            start as int <= pos as int <= len,
            len == st@.len(),
            st@ == s@.take(cstr_len(s@)),
            dt@ == delim@.take(cstr_len(delim@)),
            len == cstr_len(s@) < usize::MAX,
            forall|j: int| start as int <= j < pos as int ==> !dt@.contains(st@[j]),
        decreases len - pos,
    {
        pos = pos + 1;
    }
    proof {
        lemma_scan_not_in_is(st@, dt@, start as int, pos as int);
    }
    *saveptr = if pos < len {
        pos + 1
    } else {
        len + 1
    };
    let tok = vstd::slice::slice_subrange(st, start, pos);
    proof {
        assert(tok@ =~= st@.subrange(start as int, pos as int));
    }
    Some(tok)
}

/// Tokenize a C string with caller-managed state: [`strtok_r`] under the
/// traditional name, with no hidden global state.
pub fn strtok<'a>(s: &'a [u8], delim: &[u8], state: &mut usize) -> (r: Option<&'a [u8]>)
    requires
        s@.len() < usize::MAX,
    ensures
        ({
            let len = cstr_len(s@);
            let st = s@.take(len);
            let dt = delim@.take(cstr_len(delim@));
            if *old(state) > len {
                r is None && *final(state) == *old(state)
            } else {
                let start = scan_in(st, dt, *old(state) as int);
                if start >= len {
                    r is None && *final(state) == len + 1
                } else {
                    let end = scan_not_in(st, dt, start);
                    &&& (match r {
                        Some(t) => t@ == st.subrange(start, end),
                        None => false,
                    })
                    &&& *final(state) == if end < len {
                        end + 1
                    } else {
                        len + 1
                    }
                }
            }
        }),
{
    strtok_r(s, delim, state)
}

/// Reentrant tokenizer over a wide C string; the wide analogue of
/// [`strtok_r`].
pub fn wcstok<'a>(s: &'a [wchar_t], delim: &[wchar_t], saveptr: &mut usize) -> (r: Option<
    &'a [wchar_t],
>)
    requires
        s@.len() < usize::MAX,
    ensures
        ({
            let len = wstr_len(s@);
            let st = s@.take(len);
            let dt = delim@.take(wstr_len(delim@));
            if *old(saveptr) > len {
                r is None && *final(saveptr) == *old(saveptr)
            } else {
                let start = scan_in(st, dt, *old(saveptr) as int);
                if start >= len {
                    r is None && *final(saveptr) == len + 1
                } else {
                    let end = scan_not_in(st, dt, start);
                    &&& (match r {
                        Some(t) => t@ == st.subrange(start, end),
                        None => false,
                    })
                    &&& *final(saveptr) == if end < len {
                        end + 1
                    } else {
                        len + 1
                    }
                }
            }
        }),
{
    proof {
        lemma_term_len(s@, 0i32);
        lemma_term_len(delim@, 0i32);
    }
    let len = wcslen(s);
    let delim_len = wcslen(delim);
    let st = vstd::slice::slice_subrange(s, 0, len);
    let dt = vstd::slice::slice_subrange(delim, 0, delim_len);
    proof {
        assert(st@ =~= s@.take(len as int));
        assert(dt@ =~= delim@.take(wstr_len(delim@)));
    }
    if *saveptr > len {
        return None;
    }
    let mut pos: usize = *saveptr;
    let ghost p0 = pos as int;
    while pos < len && wide_contains(dt, st[pos])
        invariant
            p0 <= pos as int <= len,
            len == st@.len(),
            st@ == s@.take(wstr_len(s@)),
            dt@ == delim@.take(wstr_len(delim@)),
            len == wstr_len(s@) < usize::MAX,
            forall|j: int| p0 <= j < pos as int ==> dt@.contains(st@[j]),
        decreases len - pos,
    {
        pos = pos + 1;
    }
    proof {
        lemma_scan_in_is(st@, dt@, p0, pos as int);
    }
    if pos >= len {
        *saveptr = len + 1;
        return None;
    }
    let start: usize = pos;
    while pos < len && !wide_contains(dt, st[pos])
        invariant
            start as int <= pos as int <= len,
            len == st@.len(),
            st@ == s@.take(wstr_len(s@)),
            dt@ == delim@.take(wstr_len(delim@)),
            len == wstr_len(s@) < usize::MAX,
            forall|j: int| start as int <= j < pos as int ==> !dt@.contains(st@[j]),
        decreases len - pos,
    {
        pos = pos + 1;
    }
    proof {
        lemma_scan_not_in_is(st@, dt@, start as int, pos as int);
    }
    *saveptr = if pos < len {
        pos + 1
    } else {
        len + 1
    };
    let tok = vstd::slice::slice_subrange(st, start, pos);
    proof {
        assert(tok@ =~= st@.subrange(start as int, pos as int));
    }
    Some(tok)
}

/// Iterator-style tokenizer: repeated calls of [`Tokenizer::next`] yield
/// the maximal delimiter-free runs of the window, in order, like repeated
/// [`strtok_r`] calls.
pub struct Tokenizer<'a> {
    data: &'a [u8],
    delimiters: &'a [u8],
    position: usize,
    str_len: usize,
    delim_len: usize,
}

impl<'a> Tokenizer<'a> {
    /// The window the tokenizer walks: the data truncated to its recorded
    /// string length.
    pub closed spec fn window(&self) -> Seq<u8> {
        self.data@.take(vstd::math::min(self.str_len as int, self.data@.len() as int))
    }

    /// The delimiter set: the delimiters truncated to their recorded
    /// length.
    pub closed spec fn delim_set(&self) -> Seq<u8> {
        self.delimiters@.take(
            vstd::math::min(self.delim_len as int, self.delimiters@.len() as int),
        )
    }

    /// The current scan position.
    pub closed spec fn pos(&self) -> int {
        self.position as int
    }

    /// Tokenize the C strings held in `data` and `delimiters`.
    pub fn new(data: &'a [u8], delimiters: &'a [u8]) -> (r: Tokenizer<'a>)
        ensures
            r.window() == data@.take(cstr_len(data@)),
            r.delim_set() == delimiters@.take(cstr_len(delimiters@)),
            r.pos() == 0,
    {
        proof {
            lemma_term_len(data@, 0u8);
            lemma_term_len(delimiters@, 0u8);
        }
        let str_len = strlen(data);
        let delim_len = strlen(delimiters);
        Tokenizer { data, delimiters, position: 0, str_len, delim_len }
    }

    /// Tokenize whole byte slices, with no terminator handling.
    pub fn from_slice(data: &'a [u8], delimiters: &'a [u8]) -> (r: Tokenizer<'a>)
        ensures
            r.window() == data@,
            r.delim_set() == delimiters@,
            r.pos() == 0,
    {
        proof {
            vstd::slice::axiom_spec_len(data);
            vstd::slice::axiom_spec_len(delimiters);
            assert(data@.take(data@.len() as int) =~= data@);
            assert(delimiters@.take(delimiters@.len() as int) =~= delimiters@);
        }
        Tokenizer {
            data,
            delimiters,
            position: 0,
            str_len: data.len(),
            delim_len: delimiters.len(),
        }
    }

    /// `c` is one of the delimiters.
    fn is_delimiter(&self, c: u8) -> (r: bool)
        ensures
            r == self.delim_set().contains(c),
    {
        let delim_end: usize = if self.delim_len <= self.delimiters.len() {
            self.delim_len
        } else {
            self.delimiters.len()
        };
        let dt = vstd::slice::slice_subrange(self.delimiters, 0, delim_end);
        proof {
            assert(dt@ =~= self.delim_set());
        }
        slice_contains(dt, c)
    }

    /// The next token: skip delimiters, then yield the run up to the next
    /// delimiter (or the end of the window); `None` once the window is
    /// exhausted.
    pub fn next(&mut self) -> (r: Option<&'a [u8]>)
        ensures
            final(self).window() == old(self).window(),
            final(self).delim_set() == old(self).delim_set(),
            ({
                let w = old(self).window();
                let d = old(self).delim_set();
                if old(self).pos() >= w.len() {
                    r is None && final(self).pos() == old(self).pos()
                } else {
                    let start = scan_in(w, d, old(self).pos());
                    if start >= w.len() {
                        r is None && final(self).pos() == start
                    } else {
                        let end = scan_not_in(w, d, start);
                        &&& (match r {
                            Some(t) => t@ == w.subrange(start, end),
                            None => false,
                        })
                        &&& final(self).pos() == end
                    }
                }
            }),
    {
        proof {
            vstd::slice::axiom_spec_len(self.data);
        }
        let data_end: usize = if self.str_len <= self.data.len() {
            self.str_len
        } else {
            self.data.len()
        };
        let data = vstd::slice::slice_subrange(self.data, 0, data_end);
        proof {
            assert(data@ =~= old(self).window());
        }
        if self.position >= data_end {
            return None;
        }
        let ghost p0 = self.position as int;
        while self.position < data_end && self.is_delimiter(data[self.position])
            invariant
                p0 <= self.position as int <= data_end,
                data_end == data@.len() <= usize::MAX,
                data@ == old(self).window(),
                self.data == old(self).data,
                self.delimiters == old(self).delimiters,
                self.str_len == old(self).str_len,
                self.delim_len == old(self).delim_len,
                forall|j: int|
                    p0 <= j < self.position as int ==> old(self).delim_set().contains(data@[j]),
            decreases data_end - self.position,
        {
            self.position = self.position + 1;
        }
        proof {
            lemma_scan_in_is(data@, old(self).delim_set(), p0, self.position as int);
        }
        if self.position >= data_end {
            return None;
        }
        let start: usize = self.position;
        while self.position < data_end && !self.is_delimiter(data[self.position])
            invariant
                start as int <= self.position as int <= data_end,
                data_end == data@.len() <= usize::MAX,
                data@ == old(self).window(),
                self.data == old(self).data,
                self.delimiters == old(self).delimiters,
                self.str_len == old(self).str_len,
                self.delim_len == old(self).delim_len,
                forall|j: int|
                    start as int <= j < self.position as int ==> !old(self).delim_set().contains(
                        data@[j],
                    ),
            decreases data_end - self.position,
        {
            self.position = self.position + 1;
        }
        proof {
            lemma_scan_not_in_is(data@, old(self).delim_set(), start as int, self.position as int);
        }
        let tok = vstd::slice::slice_subrange(data, start, self.position);
        proof {
            assert(tok@ =~= data@.subrange(start as int, self.position as int));
        }
        Some(tok)
    }
}

/// Field splitter: like [`Tokenizer`], but consecutive delimiters yield
/// empty fields, and a trailing delimiter yields a trailing empty field.
pub struct Splitter<'a> {
    data: &'a [u8],
    delimiters: &'a [u8],
    position: usize,
    str_len: usize,
    delim_len: usize,
    done: bool,
}

impl<'a> Splitter<'a> {
    /// The window the splitter walks.
    pub closed spec fn window(&self) -> Seq<u8> {
        self.data@.take(vstd::math::min(self.str_len as int, self.data@.len() as int))
    }

    /// The delimiter set.
    pub closed spec fn delim_set(&self) -> Seq<u8> {
        self.delimiters@.take(
            vstd::math::min(self.delim_len as int, self.delimiters@.len() as int),
        )
    }

    /// The current scan position.
    pub closed spec fn pos(&self) -> int {
        self.position as int
    }

    /// Whether the splitter has yielded its last field.
    pub closed spec fn is_done(&self) -> bool {
        self.done
    }

    /// Split the C strings held in `data` and `delimiters`.
    pub fn new(data: &'a [u8], delimiters: &'a [u8]) -> (r: Splitter<'a>)
        ensures
            r.window() == data@.take(cstr_len(data@)),
            r.delim_set() == delimiters@.take(cstr_len(delimiters@)),
            r.pos() == 0,
            !r.is_done(),
    {
        proof {
            lemma_term_len(data@, 0u8);
            lemma_term_len(delimiters@, 0u8);
        }
        let str_len = strlen(data);
        let delim_len = strlen(delimiters);
        Splitter { data, delimiters, position: 0, str_len, delim_len, done: false }
    }

    /// Split whole byte slices, with no terminator handling.
    pub fn from_slice(data: &'a [u8], delimiters: &'a [u8]) -> (r: Splitter<'a>)
        ensures
            r.window() == data@,
            r.delim_set() == delimiters@,
            r.pos() == 0,
            !r.is_done(),
    {
        proof {
            vstd::slice::axiom_spec_len(data);
            vstd::slice::axiom_spec_len(delimiters);
            assert(data@.take(data@.len() as int) =~= data@);
            assert(delimiters@.take(delimiters@.len() as int) =~= delimiters@);
        }
        Splitter {
            data,
            delimiters,
            position: 0,
            str_len: data.len(),
            delim_len: delimiters.len(),
            done: false,
        }
    }

    /// `c` is one of the delimiters.
    fn is_delimiter(&self, c: u8) -> (r: bool)
        ensures
            r == self.delim_set().contains(c),
    {
        let delim_end: usize = if self.delim_len <= self.delimiters.len() {
            self.delim_len
        } else {
            self.delimiters.len()
        };
        let dt = vstd::slice::slice_subrange(self.delimiters, 0, delim_end);
        proof {
            assert(dt@ =~= self.delim_set());
        }
        slice_contains(dt, c)
    }

    /// The next field: the run up to the next delimiter (possibly empty);
    /// the delimiter is consumed. `None` once exhausted.
    pub fn next(&mut self) -> (r: Option<&'a [u8]>)
        ensures
            final(self).window() == old(self).window(),
            final(self).delim_set() == old(self).delim_set(),
            ({
                let w = old(self).window();
                let d = old(self).delim_set();
                if old(self).is_done() {
                    r is None && *final(self) == *old(self)
                } else if old(self).pos() > w.len() {
                    r is None && final(self).is_done() && final(self).pos() == old(self).pos()
                } else {
                    let end = scan_not_in(w, d, old(self).pos());
                    &&& (match r {
                        Some(t) => t@ == w.subrange(old(self).pos(), end),
                        None => false,
                    })
                    &&& final(self).pos() == if end < w.len() {
                        end + 1
                    } else {
                        end
                    }
                    &&& final(self).is_done() == (end >= w.len())
                }
            }),
    {
        if self.done {
            return None;
        }
        proof {
            vstd::slice::axiom_spec_len(self.data);
        }
        let data_end: usize = if self.str_len <= self.data.len() {
            self.str_len
        } else {
            self.data.len()
        };
        let data = vstd::slice::slice_subrange(self.data, 0, data_end);
        proof {
            assert(data@ =~= old(self).window());
        }
        if self.position > data_end {
            self.done = true;
            return None;
        }
        let start: usize = self.position;
        while self.position < data_end && !self.is_delimiter(data[self.position])
            invariant
                start as int <= self.position as int <= data_end,
                data_end == data@.len() <= usize::MAX,
                data@ == old(self).window(),
                self.data == old(self).data,
                self.delimiters == old(self).delimiters,
                self.str_len == old(self).str_len,
                self.delim_len == old(self).delim_len,
                self.done == old(self).done,
                forall|j: int|
                    start as int <= j < self.position as int ==> !old(self).delim_set().contains(
                        data@[j],
                    ),
            decreases data_end - self.position,
        {
            self.position = self.position + 1;
        }
        proof {
            lemma_scan_not_in_is(data@, old(self).delim_set(), start as int, self.position as int);
        }
        let end: usize = self.position;
        if self.position < data_end {
            self.position = self.position + 1;
        } else {
            self.done = true;
        }
        let tok = vstd::slice::slice_subrange(data, start, end);
        proof {
            assert(tok@ =~= data@.subrange(start as int, end as int));
        }
        Some(tok)
    }
}

/// Tokenize a C string: a [`Tokenizer`] positioned at the start.
pub fn strtok_iter<'a>(s: &'a [u8], delim: &'a [u8]) -> (r: Tokenizer<'a>)
    ensures
        r.window() == s@.take(cstr_len(s@)),
        r.delim_set() == delim@.take(cstr_len(delim@)),
        r.pos() == 0,
{
    Tokenizer::new(s, delim)
}

/// Split a C string preserving empty fields: a [`Splitter`] positioned at
/// the start.
pub fn strsep_iter<'a>(s: &'a [u8], delim: &'a [u8]) -> (r: Splitter<'a>)
    ensures
        r.window() == s@.take(cstr_len(s@)),
        r.delim_set() == delim@.take(cstr_len(delim@)),
        r.pos() == 0,
        !r.is_done(),
{
    Splitter::new(s, delim)
}

} // verus!
