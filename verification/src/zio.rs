//! Buffered input.

use vstd::prelude::*;
use crate::state::LuaState;
use crate::value::LuaError;

verus! {

/// What [`ZIO::getc`] and [`ZIO::fill`] return at the end of the input.
pub const EOZ: i32 = -1;

/// A growable buffer for the text of a token.
pub struct LexBuffer {
    pub buffer: Vec<u8>,
}

impl View for LexBuffer {
    type V = Seq<u8>;

    open spec fn view(&self) -> Seq<u8> {
        self.buffer@
    }
}

/// How many bytes a vector can hold before it must move: what `Vec::capacity` of the
/// standard library returns. Nothing is claimed of it but that it is no less than the
/// length; the rest is the allocator's choice.
#[verifier::external_body]
fn vec_capacity(v: &Vec<u8>) -> (r: usize)
    ensures
        r >= v@.len(),
{
    v.capacity()
}

impl LexBuffer {
    /// An empty buffer.
    pub fn new() -> (b: Self)
        ensures
            b@ == Seq::<u8>::empty(),
    {
        LexBuffer { buffer: Vec::new() }
    }

    /// The contents, to be changed in place.
    pub fn as_mut_slice(&mut self) -> (r: &mut [u8])
        ensures
            r@ == old(self)@,
            final(self)@ == final(r)@,
    {
        self.buffer.as_mut_slice()
    }

    /// How many bytes the buffer can hold before it must move. It is at least as many as
    /// it holds; how many more is the allocator's choice.
    pub fn capacity(&self) -> (r: usize)
        ensures
            r >= self@.len(),
    {
        vec_capacity(&self.buffer)
    }

    /// How many bytes the buffer holds.
    pub fn len(&self) -> (r: usize)
        ensures
            r == self@.len(),
    {
        self.buffer.len()
    }

    /// Drops the last `i` bytes, or all if there are fewer.
    pub fn truncate_by(&mut self, i: usize)
        ensures
            final(self)@ == old(self)@.take(
                if i <= old(self)@.len() {
                    old(self)@.len() - i
                } else {
                    0
                },
            ),
    {
        let n: usize = self.buffer.len();
        let keep: usize = if i <= n {
            n - i
        } else {
            0
        };
        self.buffer.truncate(keep);
        assert(self@ =~= old(self)@.take(keep as int));
    }

    /// Drops all bytes.
    pub fn clear(&mut self)
        ensures
            final(self)@ == Seq::<u8>::empty(),
    {
        self.buffer.clear();
    }

    /// What the buffer holds once it was given `size` bytes: what it held, cut off or with
    /// zeros behind it.
    pub open spec fn resized(b: Seq<u8>, size: nat) -> Seq<u8> {
        Seq::new(
            size,
            |i: int|
                if i < b.len() {
                    b[i]
                } else {
                    0u8
                },
        )
    }

    /// Makes the buffer hold exactly `size` bytes; new ones are zero. The allocator is asked
    /// for the room that is wanted, and [`Self::resize_granted`] does the rest with its
    /// answer, which nothing is known of beforehand.
    pub fn resize(&mut self, _state: &mut LuaState, size: usize) -> (r: Result<(), LuaError>)
        ensures
            *final(_state) == *old(_state),
            size <= old(self)@.len() ==> r is Ok,
            r is Ok ==> final(self)@ == LexBuffer::resized(old(self)@, size as nat),
            r matches Err(e) ==> e == LuaError::Memory && final(self)@ == old(self)@,
    {
        let want: usize = room_wanted(self.buffer.len(), size);
        let granted: bool = self.buffer.try_reserve(want).is_ok();
        self.resize_granted(size, granted)
    }

    /// Makes the buffer hold exactly `size` bytes, given whether there is room for those that
    /// are new. Where there is none the error is that memory is exhausted, and the buffer
    /// stays as it is.
    pub fn resize_granted(&mut self, size: usize, granted: bool) -> (r: Result<(), LuaError>)
        ensures
            r is Ok <==> granted || size <= old(self)@.len(),
            r is Ok ==> final(self)@ == LexBuffer::resized(old(self)@, size as nat),
            r matches Err(e) ==> e == LuaError::Memory && *final(self) == *old(self),
    {
        if size > self.buffer.len() && !granted {
            return Err(LuaError::Memory);
        }
        let ghost before = self@;
        self.buffer.resize(size, 0);
        assert(self@ =~= LexBuffer::resized(before, size as nat));
        Ok(())
    }
}

/// How many bytes more are wanted to hold `size` where there are `len`.
pub fn room_wanted(len: usize, size: usize) -> (r: usize)
    ensures
        r == (if size > len {
            size - len
        } else {
            0
        }),
{
    if size > len {
        size - len
    } else {
        0
    }
}

impl Default for LexBuffer {
    fn default() -> (b: Self)
        ensures
            b@ == Seq::<u8>::empty(),
    {
        LexBuffer::new()
    }
}

/// A source of input in chunks. It keeps account of what it has answered; nothing is assumed
/// of what that is.
pub trait ChunkReader {
    /// Everything that the reader has answered, in order. A verified reader says what that
    /// is; one that is not verified need not.
    open spec fn answered(&self) -> Seq<Option<Seq<u8>>> {
        Seq::empty()
    }

    /// The answers that are known to come next. One that is not verified need not know any.
    open spec fn coming(&self) -> Seq<Option<Seq<u8>>> {
        Seq::empty()
    }

    /// Whether it is known that the input ends behind those.
    open spec fn ending(&self) -> bool {
        false
    }

    /// The next chunk. None, or an empty one, is the end of the input.
    fn next_chunk(&mut self) -> (r: Option<Vec<u8>>)
        ensures
            final(self).answered() == old(self).answered().push(answer(r)),
            foretold(old(self).coming(), old(self).ending(), seq![answer(r)]),
            final(self).coming() == behind(old(self).coming(), 1),
            final(self).ending() == old(self).ending(),
    ;
}

/// Whether answers are as was known: the ones that were to come, and behind those, where the
/// input was to end, none.
pub open spec fn foretold(coming: Seq<Option<Seq<u8>>>, ending: bool, answers: Seq<Option<Seq<u8>>>) -> bool {
    forall|i: int|
        #![trigger answers[i]]
        0 <= i < answers.len() ==> if i < coming.len() {
            answers[i] == coming[i]
        } else {
            ending ==> answers[i] is None
        }
}

/// What is still to come after `n` answers.
pub open spec fn behind(coming: Seq<Option<Seq<u8>>>, n: int) -> Seq<Option<Seq<u8>>> {
    if n <= coming.len() {
        coming.skip(n)
    } else {
        Seq::empty()
    }
}

/// A reader of chunks that are all at hand: it hands them out one by one, and then ends.
pub struct ChunkList {
    pub chunks: Vec<Vec<u8>>,
    /// Everything that was handed out.
    pub log: Ghost<Seq<Option<Seq<u8>>>>,
}

impl ChunkList {
    /// A reader that has not been asked yet.
    pub fn new(chunks: Vec<Vec<u8>>) -> (r: Self)
        ensures
            r.chunks == chunks,
            r.log@ == Seq::<Option<Seq<u8>>>::empty(),
    {
        ChunkList { chunks: chunks, log: Ghost(Seq::empty()) }
    }
}

impl ChunkReader for ChunkList {
    open spec fn answered(&self) -> Seq<Option<Seq<u8>>> {
        self.log@
    }

    open spec fn coming(&self) -> Seq<Option<Seq<u8>>> {
        Seq::new(self.chunks@.len(), |i: int| Some(self.chunks@[i]@))
    }

    open spec fn ending(&self) -> bool {
        true
    }

    fn next_chunk(&mut self) -> (r: Option<Vec<u8>>)
        ensures
            old(self).chunks@.len() == 0 ==> r is None && final(self).chunks@ == old(self).chunks@,
            old(self).chunks@.len() > 0 ==> r == Some(old(self).chunks@[0]) && final(self).chunks@
                == old(self).chunks@.remove(0),
    {
        let r: Option<Vec<u8>> = if self.chunks.len() == 0 {
            None
        } else {
            Some(self.chunks.remove(0))
        };
        proof {
            self.log@ = self.log@.push(answer(r));
            assert(self.coming() =~= behind(old(self).coming(), 1));
        }
        r
    }
}

/// What a reader answered when asked for a chunk.
pub open spec fn answer(c: Option<Vec<u8>>) -> Option<Seq<u8>> {
    match c {
        None => None,
        Some(b) => Some(b@),
    }
}

/// Whether an answer is the end of the input.
pub open spec fn is_end(a: Option<Seq<u8>>) -> bool {
    match a {
        None => true,
        Some(b) => b.len() == 0,
    }
}

/// The bytes of answers, one behind the other.
pub open spec fn flat(log: Seq<Option<Seq<u8>>>) -> Seq<u8>
    decreases log.len(),
{
    if log.len() == 0 {
        Seq::empty()
    } else {
        flat(log.drop_last()) + (match log.last() {
            None => Seq::empty(),
            Some(b) => b,
        })
    }
}

/// Input that is read from chunks.
pub struct ZIO<R> {
    pub n: usize,
    pub p: usize,
    pub reader: R,
    pub current_chunk: Vec<u8>,
    /// Everything that the reader has answered.
    pub log: Ghost<Seq<Option<Seq<u8>>>>,
}

impl<R> ZIO<R> {
    /// The bytes left are the rest of the chunk.
    pub open spec fn wf(self) -> bool {
        self.p + self.n == self.current_chunk@.len()
    }

    /// The bytes left of the current chunk.
    pub open spec fn unread(self) -> Seq<u8> {
        self.current_chunk@.skip(self.p as int)
    }
}

/// Whether some bytes were read, where `want` were asked for: what was left, `a`, and what
/// the reader then answered make up the bytes and what is left now, `b`. The reader is only
/// asked while bytes are wanted and none are left, and not again after the end.
pub open spec fn taken(
    a: Seq<u8>,
    answers: Seq<Option<Seq<u8>>>,
    want: int,
    bytes: Seq<u8>,
    b: Seq<u8>,
) -> bool {
    &&& bytes + b == a + flat(answers)
    &&& bytes.len() <= want
    &&& forall|i: int| 0 <= i < answers.len() - 1 ==> !is_end(#[trigger] answers[i])
    &&& answers.len() > 0 ==> a.len() + flat(answers.drop_last()).len() < want
    &&& bytes.len() < want ==> answers.len() > 0 && is_end(answers.last()) && b.len() == 0
    &&& bytes.len() == want ==> answers.len() == 0 || !is_end(answers.last())
}

/// Whether a reader came to another state by giving these answers, as it was to.
pub open spec fn went_on<R: ChunkReader>(a: R, answers: Seq<Option<Seq<u8>>>, b: R) -> bool {
    &&& foretold(a.coming(), a.ending(), answers)
    &&& b.coming() == behind(a.coming(), answers.len() as int)
    &&& b.ending() == a.ending()
}

impl<R: ChunkReader> ZIO<R> {
    /// Input from a reader that has not been asked yet.
    pub fn new(reader: R) -> (z: Self)
        ensures
            z.wf(),
            z.reader == reader,
            z.unread() == Seq::<u8>::empty(),
            z.log@ == Seq::<Option<Seq<u8>>>::empty(),
    {
        let z: ZIO<R> = ZIO { n: 0, p: 0, reader: reader, current_chunk: Vec::new(), log: Ghost(Seq::empty()) };
        assert(z.unread() =~= Seq::<u8>::empty());
        z
    }

    /// Goes on with what the reader answered: returns the first byte of a chunk, whose rest
    /// takes the place of what was left. At the end nothing changes.
    pub fn accept_chunk(&mut self, chunk: Option<Vec<u8>>) -> (r: i32)
        requires
            old(self).wf(),
        ensures
            final(self).wf(),
            if is_end(answer(chunk)) {
                r == EOZ && *final(self) == *old(self)
            } else {
                &&& r == chunk->0@[0]
                &&& final(self).unread() == chunk->0@.skip(1)
                &&& final(self).current_chunk == chunk->0 && final(self).p == 1
                &&& final(self).reader == old(self).reader && final(self).log == old(self).log
            },
    {
        match chunk {
            None => EOZ,
            Some(c) => {
                if c.len() == 0 {
                    EOZ
                } else {
                    self.n = c.len() - 1;
                    self.current_chunk = c;
                    self.p = 1;
                    self.current_chunk[0] as i32
                }
            },
        }
    }

    /// Asks the reader for a chunk and returns its first byte, or the end mark. At the
    /// end what was left is left still.
    pub fn fill(&mut self) -> (r: i32)
        requires
            old(self).wf(),
        ensures
            final(self).wf(),
            final(self).log@.len() == old(self).log@.len() + 1,
            final(self).log@.drop_last() == old(self).log@,
            final(self).reader.answered() == old(self).reader.answered().push(final(self).log@.last()),
            went_on(old(self).reader, seq![final(self).log@.last()], final(self).reader),
            if is_end(final(self).log@.last()) {
                r == EOZ && final(self).unread() == old(self).unread()
            } else {
                &&& r == final(self).log@.last()->0[0] && final(self).unread() == final(self).log@.last()->0.skip(1)
                &&& final(self).p == 1 && final(self).current_chunk@ == final(self).log@.last()->0
            },
    {
        let ghost before = self.log@;
        let chunk: Option<Vec<u8>> = self.reader.next_chunk();
        proof {
            self.log@ = before.push(answer(chunk));
            assert(self.log@.drop_last() =~= before);
        }
        self.accept_chunk(chunk)
    }

    /// Hands over the bytes left of the current chunk, behind those of `buf`.
    pub fn drain_into(&mut self, buf: &mut Vec<u8>)
        requires
            old(self).wf(),
        ensures
            final(self).wf(),
            final(self).reader == old(self).reader,
            final(self).log == old(self).log,
            final(self).unread() == Seq::<u8>::empty(),
            final(buf)@ == old(buf)@ + old(self).unread(),
    {
        assert(buf@ + self.unread() =~= old(buf)@ + old(self).unread());
        while self.n > 0
            invariant
                self.wf(),
                self.reader == old(self).reader,
                self.log == old(self).log,
                buf@ + self.unread() == old(buf)@ + old(self).unread(),
            decreases self.n,
        {
            let ghost u = self.unread();
            let ghost b = buf@;
            buf.push(self.current_chunk[self.p]);
            self.n = self.n - 1;
            assert(self.p < self.current_chunk.len());
            self.p = self.p + 1;
            assert(buf@ + self.unread() =~= b + u);
        }
        assert(self.unread() =~= Seq::<u8>::empty());
        assert(buf@ + self.unread() =~= buf@);
    }

    /// Takes bytes for the current chunk, of which those from `pos` on are left.
    pub fn put_back(&mut self, bytes: Vec<u8>, pos: usize)
        requires
            pos <= bytes@.len(),
        ensures
            final(self).wf(),
            final(self).reader == old(self).reader,
            final(self).log == old(self).log,
            final(self).unread() == bytes@.skip(pos as int),
    {
        self.n = bytes.len() - pos;
        self.p = pos;
        self.current_chunk = bytes;
    }

    /// The next byte, or the end mark.
    pub fn getc(&mut self) -> (r: i32)
        requires
            old(self).wf(),
        ensures
            final(self).wf(),
            if old(self).unread().len() > 0 {
                &&& r == old(self).unread()[0] && final(self).unread() == old(self).unread().skip(1)
                &&& final(self).log == old(self).log && final(self).reader == old(self).reader
            } else {
                &&& final(self).reader.answered() == old(self).reader.answered().push(final(self).log@.last())
                &&& went_on(old(self).reader, seq![final(self).log@.last()], final(self).reader)
                &&& final(self).log@.len() == old(self).log@.len() + 1
                &&& final(self).log@.drop_last() == old(self).log@
                &&& if is_end(final(self).log@.last()) {
                    r == EOZ && final(self).unread() == old(self).unread()
                } else {
                    r == final(self).log@.last()->0[0] && final(self).unread() == final(self).log@.last()->0.skip(1)
                }
            },
    {
        if self.n > 0 {
            self.n = self.n - 1;
            let b: u8 = self.current_chunk[self.p];
            assert(self.p < self.current_chunk.len());
            self.p = self.p + 1;
            assert(self.unread() =~= old(self).unread().skip(1));
            b as i32
        } else {
            self.fill()
        }
    }

    /// Reads bytes until the buffer is full or the input ends. Returns how many are missing;
    /// that part of the buffer is left as it is.
    #[verifier::rlimit(40)]
    pub fn read(&mut self, buf: &mut [u8]) -> (missing: usize)
        requires
            old(self).wf(),
        ensures
            final(self).wf(),
            missing <= old(buf)@.len(),
            final(buf)@.len() == old(buf)@.len(),
            final(self).log@.len() >= old(self).log@.len(),
            final(self).log@.take(old(self).log@.len() as int) == old(self).log@,
            final(self).reader.answered() == old(self).reader.answered() + final(self).log@.skip(
                old(self).log@.len() as int,
            ),
            went_on(old(self).reader, final(self).log@.skip(old(self).log@.len() as int), final(self).reader),
            final(self).log@.len() == old(self).log@.len() ==> final(self).reader == old(self).reader,
            taken(
                old(self).unread(),
                final(self).log@.skip(old(self).log@.len() as int),
                old(buf)@.len() as int,
                final(buf)@.take(old(buf)@.len() - missing),
                final(self).unread(),
            ),
            final(buf)@.skip(old(buf)@.len() - missing) == old(buf)@.skip(old(buf)@.len() - missing),
    {
        let size: usize = buf.len();
        let ghost log0 = self.log@;
        let ghost a = self.unread();
        let ghost mut answers: Seq<Option<Seq<u8>>> = Seq::empty();
        let mut dst: usize = 0;
        proof {
            assert(log0.take(log0.len() as int) =~= log0);
            assert(self.log@ =~= log0 + answers);
            assert(self.reader.answered() =~= old(self).reader.answered() + answers);
            assert(behind(self.reader.coming(), 0) =~= self.reader.coming());
            assert(buf@.take(0) + self.unread() =~= a + flat(answers));
        }
        while dst < size
            invariant
                dst <= size == buf@.len() == old(buf)@.len(),
                self.wf(),
                log0 == old(self).log@,
                a == old(self).unread(),
                self.log@ == log0 + answers,
                self.reader.answered() == old(self).reader.answered() + answers,
                went_on(old(self).reader, answers, self.reader),
                answers.len() == 0 ==> self.reader == old(self).reader,
                buf@.take(dst as int) + self.unread() == a + flat(answers),
                forall|i: int| 0 <= i < answers.len() ==> !is_end(#[trigger] answers[i]),
                answers.len() > 0 ==> a.len() + flat(answers.drop_last()).len() < size,
                forall|i: int| dst <= i < size ==> buf@[i] == old(buf)@[i],
            decreases size - dst,
        {
            if self.n == 0 {
                let ghost u = self.unread();
                let ghost before = self.reader;
                let first: i32 = self.fill();
                let ghost got = self.log@.last();
                proof {
                    assert(self.log@ =~= self.log@.drop_last().push(got));
                    assert(self.log@ =~= log0 + answers.push(got));
                    assert(self.reader.answered() =~= old(self).reader.answered() + answers.push(got));
                    lemma_went_on(old(self).reader, answers, before, got, self.reader);
                    assert(answers.push(got).drop_last() =~= answers);
                    assert(buf@.take(dst as int).len() + u.len() == a.len() + flat(answers).len());
                }
                if first == EOZ {
                    proof {
                        let all = answers.push(got);
                        assert(flat(all) =~= flat(answers));
                        assert(self.log@.skip(log0.len() as int) =~= all);
                        assert(self.log@.take(log0.len() as int) =~= log0);
                        assert(buf@.skip(dst as int) =~= old(buf)@.skip(dst as int));
                        assert forall|i: int| 0 <= i < all.len() - 1 implies !is_end(#[trigger] all[i]) by {
                            assert(all[i] == answers[i]);
                        }
                    }
                    return size - dst;
                }
                assert(self.n < self.current_chunk.len());
                self.n = self.n + 1;
                self.p = self.p - 1;
                proof {
                    assert(self.unread() =~= got->0);
                    let all = answers.push(got);
                    assert(flat(all) == flat(answers) + got->0);
                    assert(buf@.take(dst as int) + u =~= buf@.take(dst as int));
                    assert(buf@.take(dst as int) + self.unread() =~= a + flat(all));
                    assert forall|i: int| 0 <= i < all.len() implies !is_end(#[trigger] all[i]) by {
                        if i < answers.len() {
                            assert(all[i] == answers[i]);
                        }
                    }
                    answers = all;
                }
            }
            let ghost before = buf@;
            let ghost u = self.unread();
            let b: u8 = self.current_chunk[self.p];
            buf[dst] = b;
            assert(self.p < self.current_chunk.len());
            self.n = self.n - 1;
            self.p = self.p + 1;
            dst = dst + 1;
            proof {
                assert(u[0] == b);
                assert(self.unread() =~= u.skip(1));
                assert(buf@.take(dst as int) =~= before.take(dst - 1).push(b));
                assert(before.take(dst - 1) + u =~= buf@.take(dst as int) + self.unread());
            }
        }
        proof {
            assert(self.log@.skip(log0.len() as int) =~= answers);
            assert(self.log@.take(log0.len() as int) =~= log0);
            assert(buf@.skip(size as int) =~= old(buf)@.skip(size as int));
        }
        0
    }
}

/// One more answer, as it was to be.
pub proof fn lemma_went_on<R: ChunkReader>(a: R, answers: Seq<Option<Seq<u8>>>, b: R, got: Option<Seq<u8>>, c: R)
    requires
        went_on(a, answers, b),
        went_on(b, seq![got], c),
    ensures
        went_on(a, answers.push(got), c),
{
    let all = answers.push(got);
    let n = answers.len() as int;
    assert(seq![got][0] == got);
    assert forall|i: int| #![trigger all[i]] 0 <= i < all.len() implies if i < a.coming().len() {
        all[i] == a.coming()[i]
    } else {
        a.ending() ==> all[i] is None
    } by {
        if i < n {
            assert(all[i] == answers[i]);
        } else if n < a.coming().len() {
            assert(b.coming()[0] == a.coming()[n]);
        }
    }
    assert(behind(behind(a.coming(), n), 1) =~= behind(a.coming(), n + 1));
}

/// The bytes that answers stand for: those up to the first that is the end of the input.
pub open spec fn stream(answers: Seq<Option<Seq<u8>>>) -> Seq<u8>
    decreases answers.len(),
{
    if answers.len() == 0 || is_end(answers[0]) {
        Seq::empty()
    } else {
        answers[0]->0 + stream(answers.skip(1))
    }
}

/// Answers that are not the end, and then more.
proof fn lemma_stream_flat(answers: Seq<Option<Seq<u8>>>, more: Seq<Option<Seq<u8>>>)
    requires
        forall|i: int| 0 <= i < answers.len() ==> !is_end(#[trigger] answers[i]),
    ensures
        stream(answers + more) == flat(answers) + stream(more),
    decreases answers.len(),
{
    if answers.len() == 0 {
        assert(answers + more =~= more);
        assert(flat(answers) + stream(more) =~= stream(more));
    } else {
        let last = answers.last();
        let init = answers.drop_last();
        let next = seq![last] + more;
        assert forall|i: int| 0 <= i < init.len() implies !is_end(#[trigger] init[i]) by {
            assert(init[i] == answers[i]);
        }
        lemma_stream_flat(init, next);
        assert(init + next =~= answers + more);
        assert(!is_end(answers[answers.len() - 1]));
        assert(next.skip(1) =~= more);
        assert(stream(next) == last->0 + stream(more));
        assert(flat(init) + (last->0 + stream(more)) =~= (flat(init) + last->0) + stream(more));
    }
}

/// What a reader that ends gave and what is to come make up what was to come.
pub proof fn lemma_stream_foretold(coming: Seq<Option<Seq<u8>>>, answers: Seq<Option<Seq<u8>>>)
    requires
        foretold(coming, true, answers),
        forall|i: int| 0 <= i < answers.len() - 1 ==> !is_end(#[trigger] answers[i]),
    ensures
        stream(coming) == flat(answers) + (if answers.len() > 0 && is_end(answers.last()) {
            Seq::<u8>::empty()
        } else {
            stream(behind(coming, answers.len() as int))
        }),
{
    let n = answers.len() as int;
    let ended = n > 0 && is_end(answers.last());
    let init = if ended {
        answers.drop_last()
    } else {
        answers
    };
    let m = init.len() as int;
    assert forall|i: int| 0 <= i < m implies !is_end(#[trigger] init[i]) by {
        assert(init[i] == answers[i]);
    }
    if coming.len() < m {
        assert(answers[coming.len() as int] is None);
        assert(is_end(init[coming.len() as int]));
    }
    let rest = coming.skip(m);
    assert(init + rest =~= coming) by {
        assert forall|i: int| 0 <= i < m implies init[i] == #[trigger] coming[i] by {
            assert(init[i] == answers[i]);
        }
    }
    lemma_stream_flat(init, rest);
    if ended {
        assert(flat(answers) =~= flat(init));
        if rest.len() > 0 {
            assert(answers[m] == coming[m]);
            assert(rest[0] == coming[m]);
        }
        assert(stream(rest) =~= Seq::<u8>::empty());
    }
}

/// What a read gives where it is known what the reader answers: the bytes that come first in
/// what was left and the reader's chunks up to its end, as many as were asked for or as there
/// are.
pub proof fn law_read_foretold(
    a: Seq<u8>,
    coming: Seq<Option<Seq<u8>>>,
    answers: Seq<Option<Seq<u8>>>,
    want: int,
    bytes: Seq<u8>,
    b: Seq<u8>,
)
    requires
        taken(a, answers, want, bytes, b),
        foretold(coming, true, answers),
    ensures
        ({
            let all = a + stream(coming);
            bytes == all.take(
                if want <= all.len() {
                    want
                } else {
                    all.len() as int
                },
            )
        }),
        bytes.len() == want ==> b + stream(behind(coming, answers.len() as int)) == (a + stream(coming)).skip(want),
{
    lemma_stream_foretold(coming, answers);
    let rest = if answers.len() > 0 && is_end(answers.last()) {
        Seq::<u8>::empty()
    } else {
        stream(behind(coming, answers.len() as int))
    };
    law_read_prefix(a, answers, want, bytes, b, rest);
    assert(a + flat(answers) + rest =~= a + stream(coming));
}

/// A read gives the bytes that come first in the input, as many as were asked for or as
/// there are, and leaves the rest. The input is what was left, what the reader answered and
/// what it has still to come; after its end nothing comes.
pub proof fn law_read_prefix(
    a: Seq<u8>,
    answers: Seq<Option<Seq<u8>>>,
    want: int,
    bytes: Seq<u8>,
    b: Seq<u8>,
    rest: Seq<u8>,
)
    requires
        taken(a, answers, want, bytes, b),
        bytes.len() < want ==> rest.len() == 0,
    ensures
        ({
            let all = a + flat(answers) + rest;
            let k = if want <= all.len() {
                want
            } else {
                all.len() as int
            };
            bytes == all.take(k) && b + rest == all.skip(k)
        }),
{
    let all = a + flat(answers) + rest;
    let k = if want <= all.len() {
        want
    } else {
        all.len() as int
    };
    assert((bytes + b).len() == (a + flat(answers)).len());
    assert(all =~= bytes + (b + rest));
    assert(k == bytes.len());
    assert(all.take(k) =~= bytes);
    assert(all.skip(k) =~= b + rest);
}

/// What a read gives does not depend on how the input is cut into chunks: two inputs of the
/// same bytes give the same bytes and leave the same ones.
pub proof fn law_read_any_chunks(
    a1: Seq<u8>,
    answers1: Seq<Option<Seq<u8>>>,
    bytes1: Seq<u8>,
    b1: Seq<u8>,
    rest1: Seq<u8>,
    a2: Seq<u8>,
    answers2: Seq<Option<Seq<u8>>>,
    bytes2: Seq<u8>,
    b2: Seq<u8>,
    rest2: Seq<u8>,
    want: int,
)
    requires
        taken(a1, answers1, want, bytes1, b1),
        taken(a2, answers2, want, bytes2, b2),
        bytes1.len() < want ==> rest1.len() == 0,
        bytes2.len() < want ==> rest2.len() == 0,
        a1 + flat(answers1) + rest1 == a2 + flat(answers2) + rest2,
    ensures
        bytes1 == bytes2,
        b1 + rest1 == b2 + rest2,
{
    law_read_prefix(a1, answers1, want, bytes1, b1, rest1);
    law_read_prefix(a2, answers2, want, bytes2, b2, rest2);
}

/// Answers one behind the other have their bytes one behind the other.
proof fn lemma_flat_joined(x: Seq<Option<Seq<u8>>>, y: Seq<Option<Seq<u8>>>)
    ensures
        flat(x + y) == flat(x) + flat(y),
    decreases y.len(),
{
    if y.len() == 0 {
        assert(x + y =~= x);
        assert(flat(x) + flat(y) =~= flat(x));
    } else {
        lemma_flat_joined(x, y.drop_last());
        assert((x + y).drop_last() =~= x + y.drop_last());
        assert((x + y).last() == y.last());
        let last = match y.last() {
            None => Seq::<u8>::empty(),
            Some(b) => b,
        };
        assert(flat(x) + flat(y.drop_last()) + last =~= flat(x) + (flat(y.drop_last()) + last));
    }
}

/// Reading twice gives the bytes that reading as much at once gives, and asks the reader
/// for the same chunks.
pub proof fn law_reads_join(
    a: Seq<u8>,
    answers1: Seq<Option<Seq<u8>>>,
    want1: int,
    bytes1: Seq<u8>,
    b: Seq<u8>,
    answers2: Seq<Option<Seq<u8>>>,
    want2: int,
    bytes2: Seq<u8>,
    c: Seq<u8>,
)
    requires
        taken(a, answers1, want1, bytes1, b),
        bytes1.len() == want1,
        taken(b, answers2, want2, bytes2, c),
    ensures
        taken(a, answers1 + answers2, want1 + want2, bytes1 + bytes2, c),
{
    let all = answers1 + answers2;
    lemma_flat_joined(answers1, answers2);
    assert(bytes1 + bytes2 + c =~= a + flat(all)) by {
        assert(bytes1 + bytes2 + c =~= bytes1 + (bytes2 + c));
        assert(bytes1 + (b + flat(answers2)) =~= (bytes1 + b) + flat(answers2));
        assert(a + flat(answers1) + flat(answers2) =~= a + flat(all));
    }
    assert forall|i: int| 0 <= i < all.len() - 1 implies !is_end(#[trigger] all[i]) by {
        if i < answers1.len() {
            assert(all[i] == answers1[i]);
            if i == answers1.len() - 1 {
                assert(answers1.last() == answers1[i]);
            }
        } else {
            assert(all[i] == answers2[i - answers1.len()]);
        }
    }
    if answers2.len() > 0 {
        assert(all.drop_last() =~= answers1 + answers2.drop_last());
        lemma_flat_joined(answers1, answers2.drop_last());
        assert(all.last() == answers2.last());
        assert((bytes1 + b).len() == (a + flat(answers1)).len());
    } else {
        assert(all =~= answers1);
    }
}

} // verus!
