//! The bytes that a worker connection has delivered and that no frame has used yet.
use vstd::prelude::*;

verus! {

/// A buffer that bytes come into at the end and frames leave at the front.
pub struct FrameReadBuffer {
    buf: Vec<u8>,
    pos: usize,
}

/// What comes next when a frame is read.
#[derive(Clone, Copy, Debug, PartialEq, Eq, Structural)]
pub enum NextRead {
    /// Read until `upto` bytes are there, which the prefix takes; a drain breaks this off.
    Prefix { upto: usize },
    /// Read until `upto` bytes are there, which the frame takes. Nothing breaks this off,
    /// but a drain that has come already is heeded first if `heed_drain` is set.
    Rest { upto: usize, heed_drain: bool },
    /// A frame of `total` bytes, prefix included, is there.
    Decode { total: usize },
}

impl FrameReadBuffer {
    /// The unread bytes.
    pub closed spec fn view(&self) -> Seq<u8> {
        self.buf@.skip(self.pos as int)
    }

    /// How many bytes that are read already the storage still holds in front of the unread
    /// ones.
    pub closed spec fn spent(&self) -> nat {
        self.pos as nat
    }

    pub closed spec fn wf(&self) -> bool {
        self.pos <= self.buf@.len()
    }

    pub fn new() -> (b: FrameReadBuffer)
        ensures
            b.wf(),
            b@ == Seq::<u8>::empty(),
            b.spent() == 0,
    {
        let b = FrameReadBuffer { buf: Vec::new(), pos: 0 };
        assert(b@ =~= Seq::<u8>::empty());
        b
    }

    /// How many bytes are unread.
    pub fn available(&self) -> (n: usize)
        requires
            self.wf(),
        ensures
            n == self@.len(),
    {
        self.buf.len() - self.pos
    }

    /// Whether bytes are left over: a connection with such bytes is not reused.
    pub fn has_surplus(&self) -> (r: bool)
        requires
            self.wf(),
        ensures
            r == (self@.len() > 0),
    {
        self.available() > 0
    }

    /// Moves the unread bytes to the front of the storage: what was read already is given
    /// up, and nothing else is lost.
    pub fn compact(&mut self)
        requires
            old(self).wf(),
        ensures
            final(self).wf(),
            final(self)@ == old(self)@,
            final(self).spent() == 0,
    {
        if self.pos == 0 {
            return;
        }
        let rest = self.buf.split_off(self.pos);
        assert(rest@ =~= old(self)@);
        self.buf = rest;
        self.pos = 0;
        assert(self@ =~= old(self)@);
    }

    /// Takes in one read. `Ok(false)` is a connection that ended before it delivered
    /// anything, where that is allowed; any other end is answered with 502.
    pub fn take_read(&mut self, read: &[u8], eof_ok_at_zero: bool) -> (r: Result<bool, u16>)
        requires
            old(self).wf(),
        ensures
            final(self).wf(),
            final(self)@ == old(self)@ + read@,
            final(self).spent() == old(self).spent(),
            r == (if read@.len() > 0 {
                Ok::<bool, u16>(true)
            } else if eof_ok_at_zero && old(self)@.len() == 0 {
                Ok::<bool, u16>(false)
            } else {
                Err::<bool, u16>(502)
            }),
    {
        if read.len() == 0 {
            assert(self@ + read@ =~= self@);
            return if eof_ok_at_zero && self.available() == 0 {
                Ok(false)
            } else {
                Err(502)
            };
        }
        self.buf.extend_from_slice(read);
        assert(self@ =~= old(self)@ + read@);
        Ok(true)
    }

    /// The first `len` unread bytes.
    pub fn prefix_bytes(&self, len: usize) -> (r: Vec<u8>)
        requires
            self.wf(),
            len <= self@.len(),
        ensures
            r@ == self@.take(len as int),
    {
        let n: usize = self.buf.len();
        let mut out: Vec<u8> = Vec::new();
        out.extend_from_slice(
            vstd::slice::slice_subrange(self.buf.as_slice(), self.pos, self.pos + len),
        );
        assert(out@ =~= self@.take(len as int));
        out
    }

    /// The length of the frame at the front, if all of it has come in. `parsed` is the
    /// length that its prefix of `prefix_len` bytes announces, or a fault in the prefix,
    /// which is answered with 502; it is not looked at before the prefix is complete.
    pub fn buffered_frame_len(&self, prefix_len: usize, parsed: Result<u32, ()>) -> (r: Result<
        Option<usize>,
        u16,
    >)
        requires
            self.wf(),
        ensures
            (r matches Ok(Some(total)) ==> total <= self@.len() && (parsed matches Ok(rest) && total
                == prefix_len + rest)),
            (r is Err ==> parsed is Err && self@.len() >= prefix_len),
            r == (if self@.len() < prefix_len {
                Ok::<Option<usize>, u16>(None)
            } else {
                match parsed {
                    Err(_) => Err::<Option<usize>, u16>(502),
                    Ok(rest) => if prefix_len + rest <= self@.len() {
                        Ok::<Option<usize>, u16>(Some((prefix_len + rest) as usize))
                    } else {
                        Ok::<Option<usize>, u16>(None)
                    },
                }
            }),
    {
        let n: usize = self.available();
        if n < prefix_len {
            return Ok(None);
        }
        match parsed {
            Err(_) => Err(502),
            Ok(rest) => {
                let left: usize = n - prefix_len;
                if left as u64 >= rest as u64 {
                    Ok(Some(prefix_len + rest as usize))
                } else {
                    Ok(None)
                }
            },
        }
    }

    /// What has to be read before the frame at the front can be decoded. `parsed` is the
    /// length that its prefix announces, as above; `fresh` says that nothing has been read
    /// for this frame yet.
    pub fn next_read(&self, prefix_len: usize, parsed: Result<u32, ()>, fresh: bool) -> (r: Result<
        NextRead,
        u16,
    >)
        requires
            self.wf(),
            parsed matches Ok(rest) ==> prefix_len + rest <= usize::MAX,
        ensures
            (r matches Ok(NextRead::Decode { total }) ==> total <= self@.len() && (parsed matches Ok(
                rest,
            ) && total == prefix_len + rest)),
            (r matches Ok(NextRead::Rest { upto, heed_drain }) ==> upto > self@.len() && heed_drain
                == fresh && (parsed matches Ok(rest) && upto == prefix_len + rest)),
            (r matches Ok(NextRead::Prefix { upto }) ==> upto == prefix_len && upto > self@.len()),
            r == (if self@.len() < prefix_len {
                Ok::<NextRead, u16>(NextRead::Prefix { upto: prefix_len })
            } else {
                match parsed {
                    Err(_) => Err::<NextRead, u16>(502),
                    Ok(rest) => {
                        let total = (prefix_len + rest) as usize;
                        if total <= self@.len() {
                            Ok::<NextRead, u16>(NextRead::Decode { total })
                        } else {
                            Ok::<NextRead, u16>(NextRead::Rest { upto: total, heed_drain: fresh })
                        }
                    },
                }
            }),
    {
        let n: usize = self.available();
        if n < prefix_len {
            return Ok(NextRead::Prefix { upto: prefix_len });
        }
        match parsed {
            Err(_) => Err(502),
            Ok(rest) => {
                let total: usize = prefix_len + rest as usize;
                if total <= n {
                    Ok(NextRead::Decode { total })
                } else {
                    Ok(NextRead::Rest { upto: total, heed_drain: fresh })
                }
            },
        }
    }

    /// The bytes of the frame at the front, without its prefix.
    pub fn envelope(&self, prefix_len: usize, total: usize) -> (r: Vec<u8>)
        requires
            self.wf(),
            prefix_len <= total <= self@.len(),
        ensures
            r@ == self@.subrange(prefix_len as int, total as int),
    {
        let n: usize = self.buf.len();
        let mut out: Vec<u8> = Vec::new();
        out.extend_from_slice(
            vstd::slice::slice_subrange(
                self.buf.as_slice(),
                self.pos + prefix_len,
                self.pos + total,
            ),
        );
        assert(out@ =~= self@.subrange(prefix_len as int, total as int));
        out
    }

    /// Takes the frame at the front, all `total` bytes of it, as read.
    pub fn consume(&mut self, total: usize)
        requires
            old(self).wf(),
            total <= old(self)@.len(),
        ensures
            final(self).wf(),
            final(self)@ == old(self)@.skip(total as int),
            final(self).spent() == old(self).spent() + total,
    {
        let n: usize = self.buf.len();
        self.pos = self.pos + total;
        assert(self@ =~= old(self)@.skip(total as int));
    }
}

/// However the bytes of a frame arrive, in one read or split anywhere, the same frame
/// comes out and the same bytes stay behind.
pub proof fn arrival_pattern_is_immaterial(before: Seq<u8>, a: Seq<u8>, b: Seq<u8>, total: int)
    requires
        0 <= total <= before.len() + a.len() + b.len(),
    ensures
        (before + a) + b == before + (a + b),
        ((before + a) + b).take(total) == (before + (a + b)).take(total),
        ((before + a) + b).skip(total) == (before + (a + b)).skip(total),
{
    assert((before + a) + b =~= before + (a + b));
}

} // verus!
