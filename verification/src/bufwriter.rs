use vstd::prelude::*;
use crate::error::Error;
use crate::text::owned;

verus! {

/// Where a [`BufWriter`] sends its bytes.
pub trait ByteSink {
    /// The bytes the sink has accepted so far, in order.
    spec fn accepted(&self) -> Seq<u8>;

    /// How many more bytes the sink is sure to take, or `None` when it
    /// promises nothing. While it is `Some(m)`, a write of at least one and
    /// at most `m` bytes takes at least one of them, which come off the room,
    /// and a flush succeeds (as does a seek to a position in range, see
    /// [`SeekSink`]).
    spec fn room(&self) -> Option<nat>;

    /// The errors the sink has answered so far, in order.
    spec fn reported(&self) -> Seq<Error>;

    /// Writes a prefix of `data` and answers its length, or fails having
    /// written nothing. (An interrupted write is retried by the sink itself.)
    fn write_bytes(&mut self, data: &[u8]) -> (r: Result<usize, Error>)
        ensures
            r matches Ok(n) ==> n <= data@.len()
                && final(self).accepted() == old(self).accepted() + data@.subrange(0, n as int),
            r is Err ==> final(self).accepted() == old(self).accepted(),
            r matches Err(e) ==> final(self).reported() == old(self).reported().push(e),
            r is Ok ==> final(self).reported() == old(self).reported(),
            match old(self).room() {
                Some(m) => 0 < data@.len() <= m ==> match r {
                    Ok(n) => 0 < n && match final(self).room() {
                        Some(m2) => m <= m2 + n,
                        None => false,
                    },
                    Err(_) => false,
                },
                None => true,
            };

    /// Makes everything written so far durable; what was accepted stays.
    fn flush_bytes(&mut self) -> (r: Result<(), Error>)
        ensures
            final(self).accepted() == old(self).accepted(),
            r matches Err(e) ==> final(self).reported() == old(self).reported().push(e),
            r is Ok ==> final(self).reported() == old(self).reported(),
            old(self).room() is Some ==> r is Ok && final(self).room() == old(self).room();
}

/// The error a flush makes when the sink takes nothing of a write.
pub open spec fn spec_write_zero(e: Error) -> bool {
    e matches Error::IoError(m) && m@ == "failed to write the buffered data"@
}

/// An in-memory sink: everything written is appended.
impl ByteSink for Vec<u8> {
    open spec fn accepted(&self) -> Seq<u8> {
        self@
    }

    open spec fn room(&self) -> Option<nat> {
        Some(usize::MAX as nat)
    }

    open spec fn reported(&self) -> Seq<Error> {
        Seq::empty()
    }

    fn write_bytes(&mut self, data: &[u8]) -> (r: Result<usize, Error>)
        ensures
            r == Ok::<usize, Error>(data@.len() as usize),
            final(self)@ == old(self)@ + data@,
    {
        let mut i: usize = 0;
        while i < data.len()
            invariant
                i <= data@.len(),
                self@ == old(self)@ + data@.subrange(0, i as int),
            decreases data@.len() - i,
        {
            self.push(data[i]);
            proof { assert(self@ =~= old(self)@ + data@.subrange(0, i + 1)); }
            i = i + 1;
        }
        proof { assert(data@.subrange(0, data@.len() as int) =~= data@); }
        Ok(data.len())
    }

    fn flush_bytes(&mut self) -> (r: Result<(), Error>)
        ensures
            r is Ok,
            final(self)@ == old(self)@,
    {
        Ok(())
    }
}

/// An in-memory sink of fixed room, as writing into a byte slice is: a
/// write takes as much of its data as still fits, and nothing once full.
pub struct BoundedSink {
    data: Vec<u8>,
    room: usize,
}

impl BoundedSink {
    /// The bytes held.
    pub closed spec fn held(&self) -> Seq<u8> {
        self.data@
    }

    /// How many more bytes fit.
    pub closed spec fn room(&self) -> nat {
        self.room as nat
    }

    /// An empty sink with room for `room` bytes.
    pub fn new(room: usize) -> (r: BoundedSink)
        ensures
            r.held() == Seq::<u8>::empty(),
            r.room() == room,
    {
        BoundedSink { data: Vec::new(), room }
    }

    /// The bytes held, in the order written.
    pub fn contents(&self) -> (r: &Vec<u8>)
        ensures
            r@ == self.held(),
    {
        &self.data
    }
}

impl ByteSink for BoundedSink {
    open spec fn accepted(&self) -> Seq<u8> {
        self.held()
    }

    open spec fn room(&self) -> Option<nat> {
        Some(self.room())
    }

    open spec fn reported(&self) -> Seq<Error> {
        Seq::empty()
    }

    fn write_bytes(&mut self, data: &[u8]) -> (r: Result<usize, Error>)
        ensures
            ({
                let n = if data@.len() < old(self).room() { data@.len() } else { old(self).room() };
                &&& r == Ok::<usize, Error>(n as usize)
                &&& final(self).held() == old(self).held() + data@.subrange(0, n as int)
                &&& final(self).room() == old(self).room() - n
            }),
    {
        let n = if data.len() < self.room { data.len() } else { self.room };
        let mut i: usize = 0;
        while i < n
            invariant
                n <= data@.len(),
                n <= self.room + i,
                i <= n,
                self.data@ == old(self).data@ + data@.subrange(0, i as int),
                self.room == old(self).room - i,
            decreases n - i,
        {
            self.data.push(data[i]);
            self.room = self.room - 1;
            proof { assert(self.data@ =~= old(self).data@ + data@.subrange(0, i + 1)); }
            i = i + 1;
        }
        Ok(n)
    }

    fn flush_bytes(&mut self) -> (r: Result<(), Error>)
        ensures
            r is Ok,
            *final(self) == *old(self),
    {
        Ok(())
    }
}

/// What a flush does after the sink answered a write of the rest of the buffer.
pub enum FlushStep {
    /// Go on: this many bytes of the buffer have now been sent.
    Sent(usize),
    /// Stop the flush with this error.
    Stop(Error),
}

/// The step of a flush after the sink answered `answer` to a write of the
/// last `len - sent` bytes of a buffer of `len`: an accepted prefix of some
/// bytes moves `sent` on past it, an accepted prefix of none is an error
/// (the sink would never take the rest), and the sink's error ends the flush.
pub fn flush_step(sent: usize, len: usize, answer: Result<usize, Error>) -> (r: FlushStep)
    requires
        sent < len,
        answer matches Ok(n) ==> sent + n <= len,
    ensures
        match answer {
            Ok(n) => if n == 0 {
                r matches FlushStep::Stop(Error::IoError(m)) && m@ == "failed to write the buffered data"@
            } else {
                r == FlushStep::Sent((sent + n) as usize)
            },
            Err(e) => r == FlushStep::Stop(e),
        },
{
    match answer {
        Ok(n) => {
            if n == 0 {
                FlushStep::Stop(Error::IoError(owned("failed to write the buffered data")))
            } else {
                FlushStep::Sent(sent + n)
            }
        },
        Err(e) => FlushStep::Stop(e),
    }
}

/// The capacity that [`BufWriter::new`] gives the buffer.
pub const DEFAULT_CAPACITY: usize = 1_005_000;

/// Buffers small writes to a sink and reports, after each flush, how many
/// bytes reached it in all to `callback`, which may adjust that count.
/// Dropping the writer drops what is still buffered: flush it, or take the
/// sink back with `into_inner`, first.
pub struct BufWriter<W: ByteSink, F: FnMut(&mut W, &mut u64)> {
    inner: W,
    buf: Vec<u8>,
    capacity: usize,
    written: u64,
    callback: F,
}

impl<W: ByteSink, F: FnMut(&mut W, &mut u64)> BufWriter<W, F> {
    /// The sink.
    pub closed spec fn inner(&self) -> W {
        self.inner
    }

    /// The bytes waiting to be written.
    pub closed spec fn buffered(&self) -> Seq<u8> {
        self.buf@
    }

    /// How many bytes are buffered before a write goes to the sink.
    pub closed spec fn capacity(&self) -> nat {
        self.capacity as nat
    }

    /// The count of bytes written, as last reported to the callback.
    pub closed spec fn written(&self) -> u64 {
        self.written
    }

    /// The callback.
    pub closed spec fn callback(&self) -> F {
        self.callback
    }

    /// What the writer has put out: the bytes its sink accepted, then those
    /// still in its buffer.
    pub open spec fn output(&self) -> Seq<u8> {
        self.inner().accepted() + self.buffered()
    }

    /// The callback accepts any sink and count.
    pub open spec fn callback_ready(&self) -> bool {
        forall|w: &mut W, n: &mut u64| call_requires(self.callback(), (w, n))
    }

    /// The buffer holds no more than its capacity, which is a `usize`.
    pub open spec fn wf(&self) -> bool {
        &&& self.buffered().len() <= self.capacity()
        &&& self.capacity() <= usize::MAX
    }

    /// Flushing the whole buffer cannot overflow the count of bytes written.
    pub open spec fn count_fits(&self) -> bool {
        self.written() + self.buffered().len() <= u64::MAX
    }

    /// The sink is sure to take the whole buffer and flush (see
    /// [`ByteSink::room`]).
    pub open spec fn sink_takes(&self) -> bool {
        match self.inner().room() {
            Some(m) => self.buffered().len() <= m,
            None => false,
        }
    }

    /// A writer with the default capacity.
    pub fn new(inner: W, call: F) -> (r: BufWriter<W, F>)
        ensures
            r.inner() == inner,
            r.callback() == call,
            r.buffered() == Seq::<u8>::empty(),
            r.capacity() == DEFAULT_CAPACITY,
            r.written() == 0,
            r.wf(),
    {
        BufWriter::with_capacity(DEFAULT_CAPACITY, inner, call)
    }

    /// A writer whose buffer holds `cap` bytes.
    pub fn with_capacity(cap: usize, inner: W, call: F) -> (r: BufWriter<W, F>)
        ensures
            r.inner() == inner,
            r.callback() == call,
            r.buffered() == Seq::<u8>::empty(),
            r.capacity() == cap,
            r.written() == 0,
            r.wf(),
    {
        let buf: Vec<u8> = Vec::with_capacity(cap);
        proof { assert(buf@ =~= Seq::<u8>::empty()); }
        BufWriter { inner, buf, capacity: cap, written: 0, callback: call }
    }

    /// The sink, to be used directly.
    pub fn get_mut(&mut self) -> (r: &mut W)
        ensures
            *r == old(self).inner(),
            final(self).inner() == *final(r),
            final(self).buffered() == old(self).buffered(),
            final(self).capacity() == old(self).capacity(),
            final(self).written() == old(self).written(),
            final(self).callback() == old(self).callback(),
    {
        &mut self.inner
    }

    /// Writes the buffer to the sink, handing it what the sink has not yet
    /// accepted (see [`flush_step`]). The `k` bytes the sink accepted leave
    /// the buffer, in order; a sink that fails, or accepts nothing, ends the
    /// flush with an error and leaves the count and callback alone. When all
    /// were accepted and the sink flushed, their number is added to the
    /// count and the callback is called with the sink and the count. A sink
    /// sure to take the whole buffer makes the flush succeed.
    fn flush_buf(&mut self) -> (r: Result<(), Error>)
        requires
            old(self).callback_ready(),
            old(self).count_fits(),
        ensures
            final(self).capacity() == old(self).capacity(),
            final(self).callback() == old(self).callback(),
            old(self).sink_takes() ==> r is Ok,
            r matches Err(e) ==> (final(self).inner().reported() == old(self).inner().reported() && spec_write_zero(e))
                || (final(self).inner().reported().len() > old(self).inner().reported().len()
                    && final(self).inner().reported().last() == e),
            exists|k: int| {
                &&& 0 <= k <= old(self).buffered().len()
                &&& final(self).buffered() == old(self).buffered().skip(k)
                &&& k < old(self).buffered().len() ==> r is Err
                &&& r is Err ==> final(self).inner().accepted() == old(self).inner().accepted()
                    + old(self).buffered().subrange(0, k)
                &&& r is Err ==> final(self).written() == old(self).written()
            },
            r is Ok ==> final(self).buffered().len() == 0 && exists|a: &mut W, b: &mut u64| {
                    &&& (*a).accepted() == old(self).inner().accepted() + old(self).buffered()
                    &&& (old(self).sink_takes() ==> (*a).room() is Some)
                    &&& *b == old(self).written() + old(self).buffered().len()
                    &&& call_ensures(old(self).callback(), (a, b), ())
                    &&& *final(a) == final(self).inner()
                    &&& *final(b) == final(self).written()
                },
    {
        let len = self.buf.len();
        let mut sent: usize = 0;
        let mut ret: Result<(), Error> = Ok(());
        proof { assert(self.buf@.subrange(0, 0) =~= Seq::<u8>::empty()); }
        while sent < len
            invariant_except_break
                ret is Ok,
                self.inner.reported() == old(self).inner.reported(),
            invariant
                sent <= len,
                len == self.buf@.len(),
                self.buf@ == old(self).buf@,
                self.capacity == old(self).capacity,
                self.written == old(self).written,
                self.callback == old(self).callback,
                self.inner.accepted() == old(self).inner.accepted() + self.buf@.subrange(0, sent as int),
                old(self).sink_takes() ==> match self.inner.room() {
                    Some(m) => len - sent <= m,
                    None => false,
                },
            ensures
                sent <= len,
                ret is Ok ==> sent == len,
                sent < len ==> ret is Err,
                old(self).sink_takes() ==> ret is Ok,
                ret matches Err(e) ==> (self.inner.reported() == old(self).inner.reported() && spec_write_zero(e))
                    || self.inner.reported() == old(self).inner.reported().push(e),
                ret is Ok ==> self.inner.reported() == old(self).inner.reported(),
            decreases len - sent,
        {
            let rest = vstd::slice::slice_subrange(self.buf.as_slice(), sent, len);
            let answer = self.inner.write_bytes(rest);
            let ghost given = answer;
            match flush_step(sent, len, answer) {
                FlushStep::Sent(next) => {
                    proof {
                        let n = given->Ok_0;
                        assert(self.buf@.subrange(0, sent + n) =~= self.buf@.subrange(0, sent as int)
                            + rest@.subrange(0, n as int));
                    }
                    sent = next;
                },
                FlushStep::Stop(e) => {
                    proof {
                        if given is Ok {
                            assert(rest@.subrange(0, 0) =~= Seq::<u8>::empty());
                        }
                    }
                    ret = Err(e);
                    break;
                },
            }
        }
        if sent > 0 {
            let mut remaining: Vec<u8> = Vec::new();
            let mut i: usize = sent;
            while i < len
                invariant
                    sent <= i <= len,
                    len == self.buf@.len(),
                    remaining@ == self.buf@.subrange(sent as int, i as int),
                decreases len - i,
            {
                remaining.push(self.buf[i]);
                proof { assert(remaining@ =~= self.buf@.subrange(sent as int, i + 1)); }
                i = i + 1;
            }
            proof { assert(remaining@ =~= old(self).buf@.skip(sent as int)); }
            self.buf = remaining;
        } else {
            proof { assert(self.buf@ =~= old(self).buf@.skip(0)); }
        }
        match self.inner.flush_bytes() {
            Ok(()) => {},
            Err(e) => return Err(e),
        }
        if ret.is_ok() {
            proof { assert(old(self).buf@.subrange(0, len as int) =~= old(self).buf@); }
            self.written = self.written + sent as u64;
            proof { assert(old(self).callback() == self.callback); }
            (self.callback)(&mut self.inner, &mut self.written);
        }
        ret
    }

    /// Writes `data`: through the buffer when it fits there, else straight
    /// to the sink, after flushing what the buffer held if `data` would not
    /// fit beside it. With a callback that leaves the sink's accepted bytes
    /// as they are, the writer's output grows by exactly the bytes this write
    /// reports. Data smaller than the buffer is taken whole when the sink is
    /// sure to take what the buffer holds.
    pub fn write(&mut self, data: &[u8]) -> (r: Result<usize, Error>)
        requires
            old(self).callback_ready(),
            old(self).count_fits(),
            old(self).wf(),
        ensures
            final(self).wf(),
            final(self).capacity() == old(self).capacity(),
            final(self).callback() == old(self).callback(),
            r matches Ok(n) ==> n <= data@.len(),
            old(self).sink_takes() && data@.len() < old(self).capacity()
                ==> r == Ok::<usize, Error>(data@.len() as usize),
            r matches Err(e) ==> spec_write_zero(e) || (final(self).inner().reported().len() > 0
                && final(self).inner().reported().last() == e),
            old(self).buffered().len() + data@.len() <= old(self).capacity() ==> {
                &&& final(self).written() == old(self).written()
                &&& if data@.len() < old(self).capacity() {
                    &&& r == Ok::<usize, Error>(data@.len() as usize)
                    &&& final(self).buffered() == old(self).buffered() + data@
                    &&& final(self).inner() == old(self).inner()
                } else {
                    &&& final(self).buffered() == old(self).buffered()
                    &&& r matches Ok(n) ==> final(self).inner().accepted()
                        == old(self).inner().accepted() + data@.subrange(0, n as int)
                    &&& r is Err ==> final(self).inner().accepted() == old(self).inner().accepted()
                }
            },
            old(self).buffered().len() + data@.len() > old(self).capacity() ==> {
                ||| (r is Err && final(self).written() == old(self).written() && exists|k: int| {
                        &&& 0 <= k <= old(self).buffered().len()
                        &&& final(self).buffered() == old(self).buffered().skip(k)
                        &&& final(self).inner().accepted() == old(self).inner().accepted()
                            + old(self).buffered().subrange(0, k)
                    })
                ||| (if data@.len() < old(self).capacity() {
                        &&& r == Ok::<usize, Error>(data@.len() as usize)
                        &&& final(self).buffered() == data@
                        &&& exists|a: &mut W, b: &mut u64| {
                            &&& (*a).accepted() == old(self).inner().accepted() + old(self).buffered()
                            &&& *b == old(self).written() + old(self).buffered().len()
                            &&& call_ensures(old(self).callback(), (a, b), ())
                            &&& *final(a) == final(self).inner()
                            &&& *final(b) == final(self).written()
                        }
                    } else {
                        &&& final(self).buffered() == Seq::<u8>::empty()
                        &&& exists|a: &mut W, b: &mut u64| {
                            &&& (*a).accepted() == old(self).inner().accepted() + old(self).buffered()
                            &&& *b == old(self).written() + old(self).buffered().len()
                            &&& call_ensures(old(self).callback(), (a, b), ())
                            &&& (r matches Ok(n) ==> final(self).inner().accepted()
                                == (*final(a)).accepted() + data@.subrange(0, n as int))
                            &&& (r is Err ==> final(self).inner().accepted() == (*final(a)).accepted())
                            &&& *final(b) == final(self).written()
                        }
                    })
            },
            (forall|a: &mut W, b: &mut u64| call_ensures(old(self).callback(), (a, b), ())
                ==> (*final(a)).accepted() == (*a).accepted()) ==> final(self).output() == old(self).output() + match r {
                Ok(n) => data@.subrange(0, n as int),
                Err(_) => Seq::<u8>::empty(),
            },
    {
        let ghost before = *self;
        if data.len() > self.capacity - self.buf.len() {
            match self.flush_buf() {
                Ok(()) => {},
                Err(e) => {
                    proof {
                        let k = choose|k: int| {
                            &&& 0 <= k <= before.buffered().len()
                            &&& self.buffered() == before.buffered().skip(k)
                            &&& k < before.buffered().len() ==> true
                            &&& self.inner().accepted() == before.inner().accepted() + before.buffered().subrange(0, k)
                            &&& self.written() == before.written()
                        };
                        assert(before.buffered() =~= before.buffered().subrange(0, k) + before.buffered().skip(k));
                        assert(self.output() =~= before.output());
                    }
                    return Err(e);
                },
            }
        }
        let ghost mid = *self;
        if data.len() >= self.capacity {
            let r = self.inner.write_bytes(data);
            proof {
                assert(self.buf@ == mid.buf@);
                if before.buffered().len() + data@.len() > before.capacity() {
                    assert(mid.buffered() =~= Seq::<u8>::empty());
                }
                assert(mid.buffered().len() == 0);
                assert(self.output() =~= self.inner().accepted());
                assert(mid.inner().accepted() + Seq::<u8>::empty() =~= mid.inner().accepted());
            }
            r
        } else {
            let mut i: usize = 0;
            let ghost start = self.buf@;
            let ghost count = self.written;
            let ghost sink = self.inner;
            while i < data.len()
                invariant
                    i <= data@.len(),
                    self.buf@ == start + data@.subrange(0, i as int),
                    self.capacity == old(self).capacity,
                    self.written == count,
                    self.inner == sink,
                    self.callback == old(self).callback,
                decreases data@.len() - i,
            {
                self.buf.push(data[i]);
                proof { assert(self.buf@ =~= start + data@.subrange(0, i + 1)); }
                i = i + 1;
            }
            proof {
                assert(data@.subrange(0, data@.len() as int) =~= data@);
                if start.len() == 0 { assert(start + data@ =~= data@); }
                assert(self.output() =~= mid.output() + data@);
                if before.buffered().len() + data@.len() > before.capacity() {
                    assert(mid.buffered() =~= Seq::<u8>::empty());
                    assert(mid.output() =~= mid.inner().accepted());
                }
            }
            Ok(data.len())
        }
    }

    /// Flushes the buffer, then the sink. With a callback that leaves the
    /// sink's accepted bytes as they are, the writer's output stays as it
    /// was. A sink sure to take the whole buffer, with a callback that keeps
    /// it sure of some room, makes the flush succeed.
    pub fn flush(&mut self) -> (r: Result<(), Error>)
        requires
            old(self).callback_ready(),
            old(self).count_fits(),
            old(self).wf(),
        ensures
            final(self).wf(),
            final(self).capacity() == old(self).capacity(),
            final(self).callback() == old(self).callback(),
            old(self).sink_takes() && (forall|a: &mut W, b: &mut u64|
                call_ensures(old(self).callback(), (a, b), ()) && (*a).room() is Some
                    ==> (*final(a)).room() is Some) ==> r is Ok,
            r matches Err(e) ==> spec_write_zero(e) || (final(self).inner().reported().len() > 0
                && final(self).inner().reported().last() == e),
            exists|k: int| {
                &&& 0 <= k <= old(self).buffered().len()
                &&& final(self).buffered() == old(self).buffered().skip(k)
                &&& k < old(self).buffered().len() ==> r is Err
            },
            ({
                ||| (r is Err && final(self).written() == old(self).written() && exists|k: int| {
                        &&& 0 <= k <= old(self).buffered().len()
                        &&& final(self).buffered() == old(self).buffered().skip(k)
                        &&& final(self).inner().accepted() == old(self).inner().accepted()
                            + old(self).buffered().subrange(0, k)
                    })
                ||| (final(self).buffered().len() == 0 && exists|a: &mut W, b: &mut u64| {
                        &&& (*a).accepted() == old(self).inner().accepted() + old(self).buffered()
                        &&& *b == old(self).written() + old(self).buffered().len()
                        &&& call_ensures(old(self).callback(), (a, b), ())
                        &&& final(self).inner().accepted() == (*final(a)).accepted()
                        &&& *final(b) == final(self).written()
                    })
            }),
            r is Ok ==> final(self).buffered().len() == 0,
            (forall|a: &mut W, b: &mut u64| call_ensures(old(self).callback(), (a, b), ())
                ==> (*final(a)).accepted() == (*a).accepted()) ==> final(self).output() == old(self).output(),
    {
        let ghost before = *self;
        match self.flush_buf() {
            Ok(()) => {
                let ghost mid = *self;
                let r = self.inner.flush_bytes();
                proof {
                    assert(before.buffered().skip(before.buffered().len() as int) =~= Seq::<u8>::empty());
                    assert(self.output() =~= self.inner().accepted());
                    assert(before.output() =~= before.inner().accepted() + before.buffered());
                }
                r
            },
            Err(e) => {
                proof {
                    let k = choose|k: int| {
                        &&& 0 <= k <= before.buffered().len()
                        &&& self.buffered() == before.buffered().skip(k)
                        &&& k < before.buffered().len() ==> true
                        &&& self.inner().accepted() == before.inner().accepted() + before.buffered().subrange(0, k)
                        &&& self.written() == before.written()
                    };
                    assert(before.buffered() =~= before.buffered().subrange(0, k) + before.buffered().skip(k));
                    assert(self.output() =~= before.output());
                }
                Err(e)
            },
        }
    }

    /// Flushes the buffer and hands back the sink. On success the sink
    /// accepted the whole buffer after what it held, the count was raised by
    /// its length, and the sink handed back is as the callback, called once
    /// with the sink and that count, left it. A sink that stops short fails
    /// it; a sink sure to take the whole buffer makes it succeed.
    pub fn into_inner(self) -> (r: Result<W, Error>)
        requires
            self.callback_ready(),
            self.count_fits(),
            self.wf(),
        ensures
            self.sink_takes() ==> r is Ok,
            r matches Ok(w) ==> exists|a: &mut W, b: &mut u64| {
                    &&& (*a).accepted() == self.inner().accepted() + self.buffered()
                    &&& *b == self.written() + self.buffered().len()
                    &&& call_ensures(self.callback(), (a, b), ())
                    &&& *final(a) == w
                },
            (forall|a: &mut W, b: &mut u64| call_ensures(self.callback(), (a, b), ())
                ==> (*final(a)).accepted() == (*a).accepted()) ==> (r matches Ok(w)
                ==> w.accepted() == self.inner().accepted() + self.buffered()),
    {
        let mut this = self;
        match this.flush_buf() {
            Ok(()) => Ok(this.inner),
            Err(e) => Err(e),
        }
    }
}

/// Where a seek goes, as with `std::io::SeekFrom`.
#[derive(Debug, Clone, Copy, PartialEq, Eq)]
pub enum SeekFrom {
    /// This many bytes from the start
    Start(u64),
    /// This many bytes from the end (may be negative)
    End(i64),
    /// This many bytes from the current position (may be negative)
    Current(i64),
}

/// A sink that can also move where it writes next.
pub trait SeekSink: ByteSink {
    /// Where the next write goes, counted from the start.
    spec fn seek_position(&self) -> u64;

    /// The length of what the sink holds, from which `SeekFrom::End` counts.
    spec fn stream_len(&self) -> nat;

    /// Moves the write position to `pos` and answers it, counted from the
    /// start: the target of [`spec_seek_target`]. A target that is in range
    /// is reached when the sink promises room (see [`ByteSink::room`]).
    fn seek_bytes(&mut self, pos: SeekFrom) -> (r: Result<u64, Error>)
        ensures
            final(self).accepted() == old(self).accepted(),
            r matches Err(e) ==> final(self).reported() == old(self).reported().push(e),
            r is Ok ==> final(self).reported() == old(self).reported(),
            r matches Ok(t) ==> spec_seek_target(pos, old(self).seek_position(), old(self).stream_len()) == Some(t)
                && final(self).seek_position() == t,
            old(self).room() is Some && spec_seek_target(pos, old(self).seek_position(), old(self).stream_len()) is Some
                ==> r is Ok;
}

/// The new position of a seek to `pos` from `current` in `len` bytes, or
/// `None` when it would be negative or past `u64::MAX`.
pub open spec fn spec_seek_target(pos: SeekFrom, current: u64, len: nat) -> Option<u64> {
    let target: int = match pos {
        SeekFrom::Start(p) => p as int,
        SeekFrom::End(o) => len + o,
        SeekFrom::Current(o) => current + o,
    };
    if 0 <= target <= u64::MAX { Some(target as u64) } else { None }
}

/// `data` with `d` written at `pos`: zeros fill any gap up to `pos`, the
/// bytes at `pos` onwards are overwritten, and the data grows as needed.
pub open spec fn spec_overwrite(data: Seq<u8>, pos: nat, d: Seq<u8>) -> Seq<u8> {
    Seq::new(
        if pos + d.len() > data.len() { pos + d.len() } else { data.len() },
        |i: int| if pos <= i < pos + d.len() { d[i - pos] } else if i < data.len() { data[i] } else { 0u8 },
    )
}

/// An in-memory sink with a write position, as `std::io::Cursor<Vec<u8>>`
/// is: a write overwrites from the position on and moves it past what was
/// written.
pub struct CursorSink {
    data: Vec<u8>,
    pos: u64,
    log: Ghost<Seq<u8>>,
    errors: Ghost<Seq<Error>>,
}

impl CursorSink {
    /// The bytes held.
    pub closed spec fn held(&self) -> Seq<u8> {
        self.data@
    }

    /// Where the next write goes.
    pub closed spec fn position(&self) -> u64 {
        self.pos
    }

    /// An empty sink positioned at its start.
    pub fn new() -> (r: CursorSink)
        ensures
            r.held() == Seq::<u8>::empty(),
            r.position() == 0,
            r.accepted() == Seq::<u8>::empty(),
            r.reported() == Seq::<Error>::empty(),
    {
        CursorSink { data: Vec::new(), pos: 0, log: Ghost(Seq::empty()), errors: Ghost(Seq::empty()) }
    }

    /// The bytes held.
    pub fn contents(&self) -> (r: &Vec<u8>)
        ensures
            r@ == self.held(),
    {
        &self.data
    }

    /// Where the next write goes.
    pub fn get_position(&self) -> (r: u64)
        ensures
            r == self.position(),
    {
        self.pos
    }
}

impl ByteSink for CursorSink {
    closed spec fn accepted(&self) -> Seq<u8> {
        self.log@
    }

    closed spec fn reported(&self) -> Seq<Error> {
        self.errors@
    }

    open spec fn room(&self) -> Option<nat> {
        Some(if self.position() <= usize::MAX { (usize::MAX - self.position()) as nat } else { 0 })
    }

    fn write_bytes(&mut self, d: &[u8]) -> (r: Result<usize, Error>)
        ensures
            old(self).position() + d@.len() <= usize::MAX ==> {
                &&& r == Ok::<usize, Error>(d@.len() as usize)
                &&& final(self).held() == spec_overwrite(old(self).held(), old(self).position() as nat, d@)
                &&& final(self).position() == old(self).position() + d@.len()
            },
            old(self).position() + d@.len() > usize::MAX ==> {
                &&& r is Err
                &&& final(self).held() == old(self).held()
                &&& final(self).position() == old(self).position()
            },
    {
        if self.pos > (usize::MAX - d.len()) as u64 {
            let e = Error::IoError(owned("cursor position exceeds maximum possible vector length"));
            self.errors = Ghost(self.errors@.push(e));
            return Err(e);
        }
        let pos = self.pos as usize;
        let ghost before = self.data@;
        while self.data.len() < pos
            invariant
                self.pos == old(self).pos,
                self.log == old(self).log,
                self.errors == old(self).errors,
                self.data@.len() <= pos || self.data@.len() == before.len(),
                before.len() <= self.data@.len(),
                forall|i: int| 0 <= i < self.data@.len() ==> #[trigger] self.data@[i]
                    == if i < before.len() { before[i] } else { 0u8 },
            decreases pos - self.data@.len(),
        {
            self.data.push(0);
        }
        let ghost padded = self.data@;
        let mut i: usize = 0;
        while i < d.len()
            invariant
                self.pos == old(self).pos,
                self.log == old(self).log,
                self.errors == old(self).errors,
                pos == self.pos,
                i <= d@.len(),
                pos + d@.len() <= usize::MAX,
                pos <= padded.len(),
                self.data@.len() == if pos + i > padded.len() { pos + i } else { padded.len() as int },
                forall|j: int| 0 <= j < self.data@.len() ==> #[trigger] self.data@[j]
                    == if pos <= j < pos + i { d@[j - pos] } else { padded[j] },
            decreases d@.len() - i,
        {
            if pos + i < self.data.len() {
                self.data.set(pos + i, d[i]);
            } else {
                self.data.push(d[i]);
            }
            i = i + 1;
        }
        proof {
            assert(self.data@ =~= spec_overwrite(before, pos as nat, d@));
        }
        self.pos = self.pos + d.len() as u64;
        self.log = Ghost(self.log@ + d@);
        proof {
            assert(d@.subrange(0, d@.len() as int) =~= d@);
            assert(self.accepted() == old(self).accepted() + d@.subrange(0, d@.len() as int));
        }
        Ok(d.len())
    }

    fn flush_bytes(&mut self) -> (r: Result<(), Error>)
        ensures
            r is Ok,
            *final(self) == *old(self),
    {
        Ok(())
    }
}

impl SeekSink for CursorSink {
    open spec fn seek_position(&self) -> u64 {
        self.position()
    }

    open spec fn stream_len(&self) -> nat {
        self.held().len()
    }

    fn seek_bytes(&mut self, pos: SeekFrom) -> (r: Result<u64, Error>)
        ensures
            final(self).held() == old(self).held(),
            final(self).accepted() == old(self).accepted(),
            match spec_seek_target(pos, old(self).position(), old(self).held().len()) {
                Some(t) => r == Ok::<u64, Error>(t) && final(self).position() == t,
                None => r is Err && final(self).position() == old(self).position(),
            },
    {
        let target: i128 = match pos {
            SeekFrom::Start(p) => p as i128,
            SeekFrom::End(o) => self.data.len() as i128 + o as i128,
            SeekFrom::Current(o) => self.pos as i128 + o as i128,
        };
        if target < 0 || target > u64::MAX as i128 {
            let e = Error::IoError(owned("invalid seek to a negative or overflowing position"));
            self.errors = Ghost(self.errors@.push(e));
            return Err(e);
        }
        self.pos = target as u64;
        Ok(self.pos)
    }
}

impl<W: SeekSink, F: FnMut(&mut W, &mut u64)> BufWriter<W, F> {
    /// Writes out the buffer, then asks the sink to move to `pos` and
    /// answers what the sink answered. A seek to an offset from the start
    /// first sets the count of bytes written to it. When the buffer cannot be
    /// written out, the sink is not asked to move and the flush's error is
    /// the answer. A sink sure to take the buffer is always asked to move,
    /// and moves when it promises room and `pos` is in range.
    pub fn seek(&mut self, pos: SeekFrom) -> (r: Result<u64, Error>)
        requires
            old(self).callback_ready(),
            old(self).wf(),
            (match pos { SeekFrom::Start(p) => p, _ => old(self).written() }) + old(self).buffered().len() <= u64::MAX,
        ensures
            final(self).wf(),
            final(self).capacity() == old(self).capacity(),
            final(self).callback() == old(self).callback(),
            r matches Err(e) ==> spec_write_zero(e) || (final(self).inner().reported().len() > 0
                && final(self).inner().reported().last() == e),
            ({
                let base = match pos { SeekFrom::Start(p) => p, _ => old(self).written() };
                ||| (r is Err && !old(self).sink_takes() && final(self).written() == base && exists|k: int| {
                        &&& 0 <= k <= old(self).buffered().len()
                        &&& final(self).buffered() == old(self).buffered().skip(k)
                        &&& final(self).inner().accepted() == old(self).inner().accepted()
                            + old(self).buffered().subrange(0, k)
                    })
                ||| (final(self).buffered().len() == 0 && exists|a: &mut W, b: &mut u64| {
                        &&& (*a).accepted() == old(self).inner().accepted() + old(self).buffered()
                        &&& *b == base + old(self).buffered().len()
                        &&& call_ensures(old(self).callback(), (a, b), ())
                        &&& *final(b) == final(self).written()
                        &&& final(self).inner().accepted() == (*final(a)).accepted()
                        &&& (r matches Ok(t) ==> spec_seek_target(pos, (*final(a)).seek_position(),
                            (*final(a)).stream_len()) == Some(t) && final(self).inner().seek_position() == t)
                        &&& ((*final(a)).room() is Some && spec_seek_target(pos, (*final(a)).seek_position(),
                            (*final(a)).stream_len()) is Some ==> r is Ok)
                    })
            }),
            exists|k: int| {
                &&& 0 <= k <= old(self).buffered().len()
                &&& final(self).buffered() == old(self).buffered().skip(k)
                &&& k < old(self).buffered().len() ==> r is Err
            },
            r is Ok ==> final(self).buffered().len() == 0,
    {
        match pos {
            SeekFrom::Start(p) => { self.written = p; },
            _ => {},
        }
        proof { assert(self.callback() == old(self).callback()); }
        match self.flush_buf() {
            Ok(()) => {
                let ghost mid = *self;
                let r = self.inner.seek_bytes(pos);
                proof { assert(self.buf@ == mid.buf@); }
                r
            },
            Err(e) => Err(e),
        }
    }
}

} // verus!
