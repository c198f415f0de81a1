use vstd::prelude::*;

verus! {

/// Items read one at a time, the next one visible before it is read.
pub struct Peekable<T> {
    chars: Vec<T>,
    pos: usize,
}

impl<T> Peekable<T> {
    #[verifier::type_invariant]
    spec fn wf(self) -> bool {
        self.pos <= self.chars.len()
    }
}

impl<T: Copy> Peekable<T> {

    pub closed spec fn remaining(self) -> Seq<T> {
        self.chars@.skip(self.pos as int)
    }

    pub fn new(chars: Vec<T>) -> (p: Peekable<T>)
        ensures p.remaining() == chars@,
    {
        let p = Peekable { chars, pos: 0 };
        assert(p.chars@.skip(0) == p.chars@);
        p
    }

    /// The items, read and unread.
    pub(crate) fn source(&self) -> (v: &Vec<T>)
        ensures
            v@.skip(self.position() as int) == self.remaining(),
            self.position() <= v@.len(),
    {
        proof { use_type_invariant(self); }
        &self.chars
    }

    pub closed spec fn position(&self) -> nat {
        self.pos as nat
    }

    /// How many items are left.
    pub fn remaining_count(&self) -> (n: usize)
        ensures
            n == self.remaining().len(),
    {
        proof { use_type_invariant(self); }
        self.chars.len() - self.pos
    }

    /// How many items have been read.
    pub(crate) fn read_count(&self) -> (n: usize)
        ensures
            n == self.position(),
    {
        self.pos
    }

    /// Reads on up to position `end` of the source.
    pub(crate) fn advance_to(&mut self, end: usize)
        requires
            old(self).position() <= end <= old(self).position() + old(self).remaining().len(),
        ensures
            final(self).remaining() == old(self).remaining().skip(end - old(self).position()),
            final(self).position() == end,
    {
        proof { use_type_invariant(&*self); }
        let ghost before = self.chars@;
        self.pos = end;
        assert(self.chars@.skip(end as int) =~= before.skip(old(self).pos as int).skip(end - old(self).pos));
    }

    pub fn peek(&self) -> (c: Option<T>)
        ensures
            self.remaining().len() == 0 ==> c is None,
            self.remaining().len() > 0 ==> c == Some(self.remaining()[0]),
    {
        proof { use_type_invariant(self); }
        if self.pos < self.chars.len() { Some(self.chars[self.pos]) } else { None }
    }

    pub fn next_if<P: Fn(T) -> bool>(&mut self, predicate: &P) -> (c: Option<T>)
        requires forall|x: T| predicate.requires((x,)),
        ensures
            match c {
                Some(x) => {
                    &&& old(self).remaining().len() > 0
                    &&& x == old(self).remaining()[0]
                    &&& predicate.ensures((x,), true)
                    &&& final(self).remaining() == old(self).remaining().drop_first()
                },
                None => {
                    &&& final(self).remaining() == old(self).remaining()
                    &&& old(self).remaining().len() > 0 ==> predicate.ensures((old(self).remaining()[0],), false)
                },
            },
    {
        proof { use_type_invariant(&*self); }
        if self.pos < self.chars.len() {
            let c = self.chars[self.pos];
            if predicate(c) {
                self.pos = self.pos + 1;
                proof { assert(self.chars@.skip(self.pos as int) == old(self).chars@.skip(old(self).pos as int).drop_first()); }
                return Some(c);
            }
        }
        None
    }
}

/// The items of a `Peekable` read for as long as `predicate` holds of them; the first
/// item it does not hold of is left unread.
pub struct PeekingTakeWhile<'a, T, P> {
    iter: &'a mut Peekable<T>,
    predicate: P,
}

impl<'a, T: Copy, P: Fn(T) -> bool> PeekingTakeWhile<'a, T, P> {
    pub closed spec fn pred(&self) -> P {
        self.predicate
    }

    /// The items of the underlying `Peekable` not read yet.
    pub closed spec fn source(&self) -> Seq<T> {
        self.iter.remaining()
    }

    /// The next item, if there is one and the predicate holds of it.
    pub fn next(&mut self) -> (c: Option<T>)
        requires
            forall|x: T| old(self).pred().requires((x,)),
        ensures
            final(self).pred() == old(self).pred(),
            match c {
                Some(x) => {
                    &&& old(self).source().len() > 0
                    &&& x == old(self).source()[0]
                    &&& old(self).pred().ensures((x,), true)
                    &&& final(self).source() == old(self).source().drop_first()
                },
                None => {
                    &&& final(self).source() == old(self).source()
                    &&& old(self).source().len() > 0 ==> old(self).pred().ensures((old(self).source()[0],), false)
                },
            },
    {
        self.iter.next_if(&self.predicate)
    }

    /// No fewer than none and no more than the items left.
    pub fn size_hint(&self) -> (r: (usize, Option<usize>))
        ensures
            r == (0usize, Some(self.source().len() as usize)),
    {
        (0, Some(self.iter.remaining_count()))
    }

    /// Every item the predicate holds of, in order, up to the first it does not.
    pub fn take_all(&mut self) -> (out: Vec<T>)
        requires
            forall|x: T| old(self).pred().requires((x,)),
        ensures
            final(self).pred() == old(self).pred(),
            out@.len() <= old(self).source().len(),
            out@ == old(self).source().take(out@.len() as int),
            final(self).source() == old(self).source().skip(out@.len() as int),
            forall|i: int| 0 <= i < out@.len() ==> old(self).pred().ensures((#[trigger] out@[i],), true),
            final(self).source().len() > 0 ==> old(self).pred().ensures((final(self).source()[0],), false),
    {
        let ghost s0 = self.source();
        let mut out: Vec<T> = Vec::new();
        loop
            invariant
                self.pred() == old(self).pred(),
                s0 == old(self).source(),
                forall|x: T| self.pred().requires((x,)),
                out@.len() <= s0.len(),
                out@ == s0.take(out@.len() as int),
                self.source() == s0.skip(out@.len() as int),
                forall|i: int| 0 <= i < out@.len() ==> self.pred().ensures((#[trigger] out@[i],), true),
            decreases self.source().len(),
        {
            match self.next() {
                Some(c) => {
                    proof {
                        assert(s0.take(out@.len() as int + 1) =~= out@.push(c));
                        assert(s0.skip(out@.len() as int + 1) =~= s0.skip(out@.len() as int).drop_first());
                    }
                    out.push(c);
                },
                None => {
                    return out;
                },
            }
        }
    }
}

pub trait PeekableExt<T: Copy>: Sized {
    spec fn rest(&self) -> Seq<T>;

    fn peeking_take_while<P: Fn(T) -> bool>(&mut self, predicate: P) -> (t: PeekingTakeWhile<'_, T, P>)
        ensures
            t.pred() == predicate,
            t.source() == old(self).rest();
}

impl<T: Copy> PeekableExt<T> for Peekable<T> {
    closed spec fn rest(&self) -> Seq<T> { self.remaining() }

    fn peeking_take_while<P: Fn(T) -> bool>(&mut self, predicate: P) -> (t: PeekingTakeWhile<'_, T, P>) {
        PeekingTakeWhile { iter: self, predicate }
    }
}

} // verus!
