//! Reading from a stream, as seen from inside: what a read can bring, and filling a buffer.

use crate::vault::error::{Error, ErrorView};
use crate::vault::secret::Secret;
use vstd::prelude::*;
use vstd::slice::*;

verus! {

/// What one read from a stream brought. No bytes at all mean that the stream has ended.
pub enum ReadEvent {
    Got(Secret),
    /// The read was interrupted and can be repeated.
    Interrupted,
    Failed(String),
}

impl ReadEvent {
    /// The bytes that the read brought.
    pub open spec fn data(self) -> Seq<u8> {
        match self {
            ReadEvent::Got(b) => b@,
            _ => Seq::empty(),
        }
    }

    /// Whether the read says that the stream has ended.
    pub open spec fn is_end(self) -> bool {
        self matches ReadEvent::Got(b) && b@.len() == 0
    }
}

/// A buffer that fills up to a size unless the stream ends first.
pub struct Filler {
    pub buf: Secret,
    pub want: usize,
}

/// Where a buffer stands after a read.
pub enum Fill {
    /// The buffer can take more.
    More,
    /// The buffer is full, or the stream has ended.
    End,
    Failed(Error),
}

impl Filler {
    /// There is room left.
    pub open spec fn open(self) -> bool {
        self.buf@.len() < self.want
    }

    /// A read may bring no more than was asked for.
    pub open spec fn takes(self, ev: ReadEvent) -> bool {
        self.buf@.len() + ev.data().len() <= self.want
    }

    /// An empty buffer for `want` bytes.
    pub fn new(want: usize) -> (f: Filler)
        ensures
            f.buf@ == Seq::<u8>::empty(),
            f.want == want,
    {
        Filler { buf: Secret::new(Vec::with_capacity(want)), want }
    }

    /// How many bytes are still missing.
    pub fn missing(&self) -> (n: usize)
        requires
            self.buf@.len() <= self.want,
        ensures
            n == self.want - self.buf@.len(),
    {
        self.want - self.buf.len()
    }

    /// Takes in what a read brought.
    pub fn feed(&mut self, ev: ReadEvent) -> (r: Fill)
        requires
            old(self).open(),
            old(self).takes(ev),
        ensures
            final(self).want == old(self).want,
            final(self).buf@ == old(self).buf@ + ev.data(),
            match ev {
                ReadEvent::Got(b) => if b@.len() == 0 || final(self).buf@.len()
                    == final(self).want {
                    r is End
                } else {
                    r is More
                },
                ReadEvent::Interrupted => r is More,
                ReadEvent::Failed(w) => r matches Fill::Failed(e) && e@ == ErrorView::Io(w@),
            },
    {
        match ev {
            ReadEvent::Got(b) => {
                self.buf.extend(b.as_slice());
                if b.len() == 0 || self.buf.len() == self.want {
                    Fill::End
                } else {
                    Fill::More
                }
            },
            ReadEvent::Interrupted => {
                assert(self.buf@ =~= old(self).buf@ + ev.data());
                Fill::More
            },
            ReadEvent::Failed(w) => {
                assert(self.buf@ =~= old(self).buf@ + ev.data());
                Fill::Failed(Error::Io(w))
            },
        }
    }
}

/// A stream in memory.
pub struct SliceSource<'a> {
    pub data: &'a [u8],
    pub pos: usize,
}

impl<'a> SliceSource<'a> {
    pub open spec fn wf(self) -> bool {
        self.pos <= self.data@.len()
    }

    /// The bytes that are still to be read.
    pub open spec fn rest(self) -> Seq<u8> {
        self.data@.skip(self.pos as int)
    }

    /// A stream that holds `data`.
    pub fn new(data: &'a [u8]) -> (s: SliceSource<'a>)
        ensures
            s.wf(),
            s.rest() == data@,
    {
        assert(data@.skip(0) =~= data@);
        SliceSource { data, pos: 0 }
    }

    /// Reads as much as there is, `max` bytes at most.
    pub fn read(&mut self, max: usize) -> (ev: ReadEvent)
        requires
            old(self).wf(),
        ensures
            final(self).wf(),
            ev is Got,
            ev.data().len() == if old(self).rest().len() < max {
                old(self).rest().len()
            } else {
                max as nat
            },
            old(self).rest() == ev.data() + final(self).rest(),
            final(self).data == old(self).data,
    {
        let left: usize = self.data.len() - self.pos;
        let n: usize = if left < max { left } else { max };
        let got: Secret = Secret::new(
            slice_to_vec(slice_subrange(self.data, self.pos, self.pos + n)),
        );
        self.pos = self.pos + n;
        assert(old(self).rest() =~= got@ + self.rest());
        ReadEvent::Got(got)
    }
}

} // verus!
