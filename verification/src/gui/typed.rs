//! A passphrase as it is typed: secret, and editable character by character.

use crate::bytes;
use crate::vault::Secret;
use vstd::prelude::*;
use vstd::string::*;
use vstd::utf8::*;

verus! {

/// What was typed.
pub struct Typed {
    /// The UTF-8 bytes of every character.
    pub chars: Vec<Secret>,
    /// The characters.
    pub text: Ghost<Seq<char>>,
}

impl View for Typed {
    type V = Seq<char>;

    open spec fn view(&self) -> Seq<char> {
        self.text@
    }
}

/// The encoding of a text is that of its parts.
proof fn lemma_encode_concat(a: Seq<char>, b: Seq<char>)
    ensures
        encode_utf8(a + b) == encode_utf8(a) + encode_utf8(b),
    decreases a.len(),
{
    if a.len() == 0 {
        assert(a + b =~= b);
        assert(encode_utf8(a) + encode_utf8(b) =~= encode_utf8(b));
    } else {
        assert((a + b).drop_first() =~= a.drop_first() + b);
        lemma_encode_concat(a.drop_first(), b);
        assert(encode_utf8(a + b) =~= encode_utf8(a) + encode_utf8(b));
    }
}

impl Typed {
    /// Every entry is the encoding of its character.
    pub open spec fn wf(self) -> bool {
        &&& self.chars@.len() == self@.len()
        &&& forall|i: int|
            0 <= i < self@.len() ==> (#[trigger] self.chars@[i])@ == encode_utf8(seq![self@[i]])
    }

    pub fn new() -> (t: Typed)
        ensures
            t.wf(),
            t@ == Seq::<char>::empty(),
    {
        Typed { chars: Vec::new(), text: Ghost(Seq::empty()) }
    }

    pub fn len(&self) -> (n: usize)
        requires
            self.wf(),
        ensures
            n == self@.len(),
    {
        self.chars.len()
    }

    pub fn is_empty(&self) -> (r: bool)
        requires
            self.wf(),
        ensures
            r == (self@.len() == 0),
    {
        self.chars.len() == 0
    }

    /// Appends text.
    pub fn push_str(&mut self, s: &str)
        requires
            old(self).wf(),
        ensures
            final(self).wf(),
            final(self)@ == old(self)@ + s@,
    {
        let len: usize = s.unicode_len();
        let mut i: usize = 0;
        assert(self@ =~= old(self)@ + s@.take(0));
        while i < len
            invariant
                i <= len == s@.len(),
                self.wf(),
                self@ == old(self)@ + s@.take(i as int),
            decreases len - i,
        {
            let c: &str = s.substring_char(i, i + 1);
            assert(c@ =~= seq![s@[i as int]]);
            let ghost before = *self;
            self.chars.push(Secret::new(bytes::to_vec(c.as_bytes())));
            self.text = Ghost(before@.push(s@[i as int]));
            assert(self.wf());
            assert(self@ =~= old(self)@ + s@.take(i + 1));
            i = i + 1;
        }
        assert(s@.take(len as int) =~= s@);
    }

    /// Removes the last character, if there is one.
    pub fn pop(&mut self)
        requires
            old(self).wf(),
        ensures
            final(self).wf(),
            final(self)@ == if old(self)@.len() > 0 {
                old(self)@.drop_last()
            } else {
                old(self)@
            },
    {
        if self.chars.len() > 0 {
            let ghost before = *self;
            let _ = self.chars.pop();
            self.text = Ghost(before@.drop_last());
            assert forall|i: int| 0 <= i < self@.len() implies (#[trigger] self.chars@[i])@
                == encode_utf8(seq![self@[i]]) by {
                assert(self.chars@[i] == before.chars@[i]);
                assert(self@[i] == before@[i]);
            }
        }
    }

    pub fn clear(&mut self)
        ensures
            final(self).wf(),
            final(self)@ == Seq::<char>::empty(),
    {
        self.chars = Vec::new();
        self.text = Ghost(Seq::empty());
    }

    /// The UTF-8 bytes of what was typed.
    pub fn to_secret(&self) -> (s: Secret)
        requires
            self.wf(),
        ensures
            s@ == encode_utf8(self@),
    {
        let mut s: Secret = Secret::new(Vec::new());
        let mut i: usize = 0;
        assert(self@.take(0) =~= Seq::empty());
        while i < self.chars.len()
            invariant
                i <= self.chars@.len(),
                self.wf(),
                s@ == encode_utf8(self@.take(i as int)),
            decreases self.chars@.len() - i,
        {
            s.extend(self.chars[i].as_slice());
            proof {
                lemma_encode_concat(self@.take(i as int), seq![self@[i as int]]);
                assert(self@.take(i + 1) =~= self@.take(i as int) + seq![self@[i as int]]);
            }
            i = i + 1;
        }
        assert(self@.take(i as int) =~= self@);
        s
    }
}

} // verus!
