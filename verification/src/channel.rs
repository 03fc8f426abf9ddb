//! The framed channel: two byte buffers over a nonblocking stream socket,
//! with one message per frame and a single `0x00` delimiter byte after each
//! frame. The socket itself is driven outside; this module owns the
//! buffers, the framing, and the message codec on top of them.

use vstd::prelude::*;

use crate::codec::{encode_config_message, encode_server_message, parse_config_message, parse_server_message};
use crate::data::{ChannelError, ConfigMessage, ProtocolError, ServerMessage, ServerMessageV};
use vstd::string::StrSliceExecFns;

verus! {

/// Index of the first `0x00` in `b`, or -1 when none is buffered.
pub open spec fn first_nul(b: Seq<u8>) -> int
    decreases b.len(),
{
    if b.len() == 0 {
        -1
    } else if b[0] == 0 {
        0
    } else {
        let r = first_nul(b.drop_first());
        if r < 0 {
            -1
        } else {
            r + 1
        }
    }
}

/// The first delimiter lies inside the buffer and is the earliest one.
pub proof fn lemma_first_nul(b: Seq<u8>)
    ensures
        first_nul(b) >= 0 ==> first_nul(b) < b.len() && b[first_nul(b)] == 0 && forall|k: int|
            0 <= k < first_nul(b) ==> b[k] != 0,
        first_nul(b) < 0 ==> forall|k: int| 0 <= k < b.len() ==> b[k] != 0,
    decreases b.len(),
{
    if b.len() > 0 && b[0] != 0 {
        let t = b.drop_first();
        lemma_first_nul(t);
        assert(forall|i: int| 0 <= i < t.len() ==> #[trigger] t[i] == b[i + 1]);
        let r = first_nul(t);
        if r >= 0 {
            assert(b[first_nul(b)] == t[r]);
            assert forall|k: int| 0 <= k < first_nul(b) implies b[k] != 0 by {
                if k > 0 {
                    assert(b[k] == t[k - 1]);
                }
            }
        } else {
            assert forall|k: int| 0 <= k < b.len() implies b[k] != 0 by {
                if k > 0 {
                    assert(b[k] == t[k - 1]);
                }
            }
        }
    }
}

/// The complete frames held in a buffer: each run of bytes before a
/// delimiter, in order. Bytes after the last delimiter are an incomplete
/// frame still in flight.
pub open spec fn frames(b: Seq<u8>) -> Seq<Seq<u8>>
    decreases b.len(),
{
    let k = first_nul(b);
    if k < 0 || k >= b.len() {
        Seq::empty()
    } else {
        seq![b.take(k)] + frames(b.skip(k + 1))
    }
}

/// A buffer made only of whole delimited frames: nothing trails the last
/// delimiter.
pub open spec fn well_framed(b: Seq<u8>) -> bool
    decreases b.len(),
{
    b.len() == 0 || {
        let k = first_nul(b);
        0 <= k < b.len() && well_framed(b.skip(k + 1))
    }
}

/// Appending one delimited, delimiter-free frame to a well-framed buffer
/// appends exactly that frame to the buffer's frame list and keeps the
/// buffer well-framed: the channel delivers whole frames, in order,
/// exactly once per write.
pub proof fn lemma_frames_append(b: Seq<u8>, p: Seq<u8>)
    requires
        well_framed(b),
        forall|k: int| 0 <= k < p.len() ==> p[k] != 0,
    ensures
        frames(b + p + seq![0u8]) == frames(b).push(p),
        well_framed(b + p + seq![0u8]),
    decreases b.len(),
{
    let w = b + p + seq![0u8];
    lemma_first_nul(b);
    lemma_first_nul(w);
    let k = first_nul(b);
    let kw = first_nul(w);
    if b.len() == 0 {
        assert(forall|i: int| 0 <= i < p.len() ==> w[i] == p[i]);
        assert(w[p.len() as int] == 0);
        assert(kw == p.len()) by {
            if 0 <= kw < p.len() {
                assert(w[kw] == 0);
            }
            if kw < 0 {
                assert(w[p.len() as int] != 0);
            }
        }
        assert(w.take(kw) =~= p);
        assert(w.skip(kw + 1) =~= Seq::<u8>::empty());
        assert(frames(Seq::<u8>::empty()) =~= Seq::<Seq<u8>>::empty());
        assert(well_framed(Seq::<u8>::empty()));
        assert(frames(w) =~= seq![p]);
        assert(frames(b) =~= Seq::<Seq<u8>>::empty());
        assert(frames(b).push(p) =~= seq![p]);
    } else {
        assert(0 <= k < b.len());
        assert(kw == k) by {
            assert(forall|i: int| 0 <= i < b.len() ==> w[i] == b[i]);
            assert(w[k] == 0);
            if 0 <= kw < k {
                assert(b[kw] == 0);
            }
        }
        assert(w.take(k) =~= b.take(k));
        assert(w.skip(k + 1) =~= b.skip(k + 1) + p + seq![0u8]);
        lemma_frames_append(b.skip(k + 1), p);
        assert(frames(w) =~= seq![b.take(k)] + frames(b.skip(k + 1)).push(p));
        assert(frames(b).push(p) =~= seq![b.take(k)] + frames(b.skip(k + 1)).push(p));
    }
}

/// The UTF-8 bytes of control-free text never contain the `0x00` frame
/// delimiter: an ASCII byte keeps its scalar value, at or above the space
/// character, and every multi-byte unit has its high bit set.
pub proof fn lemma_printable_utf8_no_nul(s: Seq<char>)
    requires
        crate::json::printable(s),
    ensures
        forall|k: int|
            0 <= k < vstd::utf8::encode_utf8(s).len() ==> #[trigger] vstd::utf8::encode_utf8(
                s,
            )[k] != 0,
    decreases s.len(),
{
    broadcast use vstd::utf8::char_is_scalar;

    if s.len() > 0 {
        let c = s[0] as u32;
        assert(c >= 32);
        let e = vstd::utf8::encode_scalar(c);
        assert forall|k: int| 0 <= k < e.len() implies #[trigger] e[k] != 0 by {
            if vstd::utf8::has_width_1_encoding(c) {
                assert(((c & 0x7F) as u8) != 0) by (bit_vector)
                    requires
                        32 <= c <= 0x7F,
                ;
            }
            assert((0xC0u8 | (((c >> 6) & 0x1F) as u8)) != 0) by (bit_vector);
            assert((0xE0u8 | (((c >> 12) & 0x0F) as u8)) != 0) by (bit_vector);
            assert((0xF0u8 | (((c >> 18) & 0x7) as u8)) != 0) by (bit_vector);
            assert((0x80u8 | ((c & 0x3F) as u8)) != 0) by (bit_vector);
            assert((0x80u8 | (((c >> 6) & 0x3F) as u8)) != 0) by (bit_vector);
            assert((0x80u8 | (((c >> 12) & 0x3F) as u8)) != 0) by (bit_vector);
        }
        assert(crate::json::printable(s.drop_first())) by {
            assert(forall|k: int|
                0 <= k < s.drop_first().len() ==> #[trigger] s.drop_first()[k] == s[k + 1]);
        }
        lemma_printable_utf8_no_nul(s.drop_first());
        let rest = vstd::utf8::encode_utf8(s.drop_first());
        assert(vstd::utf8::encode_utf8(s) == e + rest);
        assert(forall|k: int|
            0 <= k < (e + rest).len() ==> #[trigger] (e + rest)[k] == (if k < e.len() {
                e[k]
            } else {
                rest[k - e.len()]
            }));
    }
}

/// Relies on `String::from_utf8`: decodes the bytes where they are valid
/// UTF-8 and refuses them otherwise, as `vstd`'s encoding model states it.
#[verifier::external_body]
fn bytes_to_string(b: Vec<u8>) -> (r: Option<String>)
    ensures
        vstd::utf8::valid_utf8(b@) <==> r is Some,
        r matches Option::Some(s) ==> s@ == vstd::utf8::decode_utf8(b@),
{
    match String::from_utf8(b) {
        Ok(s) => Option::Some(s),
        Err(_) => Option::None,
    }
}

/// A duplex framed channel: what was read off the socket and not yet
/// consumed, and what is queued to be written. `target` is the size the
/// buffers aim for and `max` the hard bound the write side refuses to
/// pass.
pub struct Channel {
    pub read_buf: Vec<u8>,
    pub write_buf: Vec<u8>,
    pub target: usize,
    pub max: usize,
    pub blocking: bool,
}

impl Channel {
    /// The write buffer holds only whole frames.
    pub open spec fn wf(&self) -> bool {
        well_framed(self.write_buf@)
    }

    /// A fresh channel with empty buffers.
    pub fn new(target: usize, max: usize, blocking: bool) -> (r: Channel)
        ensures
            r.read_buf@.len() == 0,
            r.write_buf@.len() == 0,
            r.target == target,
            r.max == max,
            r.blocking == blocking,
            r.wf(),
    {
        Channel { read_buf: Vec::new(), write_buf: Vec::new(), target, max, blocking }
    }

    /// Toggles the blocking mode the socket should be driven in.
    pub fn set_blocking(&mut self, blocking: bool)
        ensures
            *final(self) == (Channel { blocking, ..*old(self) }),
    {
        self.blocking = blocking;
    }

    /// Queues one frame. Refuses it with `BackPressure` where the write
    /// buffer would pass `max`, and with `Decode` where the payload holds
    /// the delimiter byte; otherwise appends the payload and one delimiter,
    /// adding exactly one frame.
    #[verifier::loop_isolation(false)]
    pub fn write_frame(&mut self, payload: &Vec<u8>) -> (r: Result<(), ChannelError>)
        requires
            old(self).wf(),
        ensures
            final(self).wf(),
            final(self).read_buf == old(self).read_buf,
            final(self).target == old(self).target,
            final(self).max == old(self).max,
            final(self).blocking == old(self).blocking,
            match r {
                Result::Ok(()) => final(self).write_buf@ == old(self).write_buf@ + payload@
                    + seq![0u8] && frames(final(self).write_buf@) == frames(
                    old(self).write_buf@,
                ).push(payload@) && old(self).write_buf@.len() + payload@.len() + 1 <= old(
                    self,
                ).max && forall|k: int| 0 <= k < payload@.len() ==> payload@[k] != 0,
                Result::Err(ChannelError::BackPressure) => *final(self) == *old(self) && old(
                    self,
                ).write_buf@.len() + payload@.len() + 1 > old(self).max,
                Result::Err(ChannelError::Decode) => *final(self) == *old(self) && exists|k: int|
                    0 <= k < payload@.len() && payload@[k] == 0,
                _ => false,
            },
    {
        if payload.len() == usize::MAX || self.write_buf.len() > self.max || self.max
            - self.write_buf.len() < payload.len() + 1 {
            return Result::Err(ChannelError::BackPressure);
        }
        let mut i: usize = 0;
        while i < payload.len()
            invariant
                0 <= i <= payload@.len(),
                forall|k: int| 0 <= k < i ==> payload@[k] != 0,
                *self == *old(self),
            decreases payload@.len() - i,
        {
            if payload[i] == 0 {
                return Result::Err(ChannelError::Decode);
            }
            i = i + 1;
        }
        let ghost b0 = self.write_buf@;
        let mut j: usize = 0;
        while j < payload.len()
            invariant
                0 <= j <= payload@.len(),
                self.write_buf@ == b0 + payload@.take(j as int),
                self.read_buf == old(self).read_buf,
                self.target == old(self).target,
                self.max == old(self).max,
                self.blocking == old(self).blocking,
            decreases payload@.len() - j,
        {
            let byte = payload[j];
            self.write_buf.push(byte);
            proof {
                assert(self.write_buf@ =~= b0 + payload@.take(j as int + 1));
            }
            j = j + 1;
        }
        self.write_buf.push(0);
        proof {
            assert(payload@.take(payload@.len() as int) =~= payload@);
            assert(self.write_buf@ =~= b0 + payload@ + seq![0u8]);
            lemma_frames_append(b0, payload@);
        }
        Result::Ok(())
    }

    /// Hands the queued bytes to the socket driver and leaves the write
    /// buffer empty.
    pub fn take_write(&mut self) -> (r: Vec<u8>)
        ensures
            r@ == old(self).write_buf@,
            final(self).write_buf@.len() == 0,
            final(self).wf(),
            final(self).read_buf == old(self).read_buf,
            final(self).target == old(self).target,
            final(self).max == old(self).max,
            final(self).blocking == old(self).blocking,
    {
        let mut out: Vec<u8> = Vec::new();
        core::mem::swap(&mut out, &mut self.write_buf);
        out
    }

    /// Appends what the socket driver read; zero-length input is the
    /// peer's close.
    pub fn fill_read(&mut self, data: &Vec<u8>)
        ensures
            final(self).read_buf@ == old(self).read_buf@ + data@,
            final(self).write_buf == old(self).write_buf,
            final(self).target == old(self).target,
            final(self).max == old(self).max,
            final(self).blocking == old(self).blocking,
            old(self).wf() ==> final(self).wf(),
    {
        let ghost b0 = self.read_buf@;
        let mut j: usize = 0;
        while j < data.len()
            invariant
                0 <= j <= data@.len(),
                self.read_buf@ == b0 + data@.take(j as int),
                self.write_buf == old(self).write_buf,
                self.target == old(self).target,
                self.max == old(self).max,
                self.blocking == old(self).blocking,
            decreases data@.len() - j,
        {
            let byte = data[j];
            self.read_buf.push(byte);
            proof {
                assert(self.read_buf@ =~= b0 + data@.take(j as int + 1));
            }
            j = j + 1;
        }
        proof {
            assert(data@.take(data@.len() as int) =~= data@);
        }
    }

    /// The next whole frame, or `WouldBlock` while none is complete. On
    /// success the frame's bytes leave the read buffer, delimiter
    /// included: each frame is delivered once.
    #[verifier::loop_isolation(false)]
    pub fn read_frame(&mut self) -> (r: Result<Vec<u8>, ChannelError>)
        ensures
            final(self).write_buf == old(self).write_buf,
            final(self).target == old(self).target,
            final(self).max == old(self).max,
            final(self).blocking == old(self).blocking,
            old(self).wf() ==> final(self).wf(),
            match r {
                Result::Ok(p) => {
                    let k = first_nul(old(self).read_buf@);
                    0 <= k < old(self).read_buf@.len() && p@ == old(self).read_buf@.take(k)
                        && final(self).read_buf@ == old(self).read_buf@.skip(k + 1) && frames(
                        old(self).read_buf@,
                    ) == seq![p@] + frames(final(self).read_buf@)
                },
                Result::Err(ChannelError::WouldBlock) => final(self).read_buf == old(
                    self,
                ).read_buf && first_nul(old(self).read_buf@) < 0,
                _ => false,
            },
    {
        proof {
            lemma_first_nul(self.read_buf@);
        }
        let mut k: usize = 0;
        let mut found = false;
        while k < self.read_buf.len()
            invariant
                0 <= k <= self.read_buf@.len(),
                !found ==> forall|i: int| 0 <= i < k ==> self.read_buf@[i] != 0,
                found ==> k < self.read_buf@.len() && self.read_buf@[k as int] == 0 && forall|
                    i: int,
                |
                    0 <= i < k ==> self.read_buf@[i] != 0,
                *self == *old(self),
            decreases self.read_buf@.len() - k,
        {
            if self.read_buf[k] == 0 {
                found = true;
                break;
            }
            k = k + 1;
        }
        if !found {
            proof {
                if first_nul(self.read_buf@) >= 0 {
                    assert(self.read_buf@[first_nul(self.read_buf@)] == 0);
                }
            }
            return Result::Err(ChannelError::WouldBlock);
        }
        proof {
            let fk = first_nul(self.read_buf@);
            if fk < 0 {
                assert(self.read_buf@[k as int] != 0);
            }
            assert(fk == k) by {
                if 0 <= fk < k {
                    assert(self.read_buf@[fk] != 0);
                }
                if fk > k {
                    assert(self.read_buf@[k as int] != 0);
                }
            }
        }
        let mut p: Vec<u8> = Vec::new();
        let mut i: usize = 0;
        while i < k
            invariant
                0 <= i <= k <= self.read_buf@.len(),
                p@ == self.read_buf@.take(k as int).take(i as int),
                k < self.read_buf@.len(),
                *self == *old(self),
            decreases k - i,
        {
            let byte = self.read_buf[i];
            p.push(byte);
            proof {
                assert(self.read_buf@.take(k as int).take(i as int + 1) =~= self.read_buf@.take(
                    k as int,
                ).take(i as int).push(self.read_buf@[i as int]));
            }
            i = i + 1;
        }
        proof {
            assert(self.read_buf@.take(k as int).take(k as int) =~= self.read_buf@.take(
                k as int,
            ));
        }
        let mut rest: Vec<u8> = Vec::new();
        let mut j: usize = k + 1;
        while j < self.read_buf.len()
            invariant
                k + 1 <= j <= self.read_buf@.len() || (j == k + 1 && j >= self.read_buf@.len()),
                rest@ == self.read_buf@.skip(k as int + 1).take(j - k - 1),
                k < self.read_buf@.len(),
                *self == *old(self),
            decreases self.read_buf@.len() - j,
        {
            let byte = self.read_buf[j];
            rest.push(byte);
            proof {
                assert(self.read_buf@.skip(k as int + 1).take(j - k) =~= self.read_buf@.skip(
                    k as int + 1,
                ).take(j - k - 1).push(self.read_buf@[j as int]));
            }
            j = j + 1;
        }
        proof {
            let tail = self.read_buf@.skip(k as int + 1);
            assert(tail.take(tail.len() as int) =~= tail);
            if self.read_buf@.len() as int <= k as int + 1 {
                assert(tail =~= Seq::<u8>::empty());
                assert(rest@ =~= tail);
            }
        }
        self.read_buf = rest;
        Result::Ok(p)
    }

    /// The bytes one admin request occupies on the wire, delimiter
    /// excluded.
    pub open spec fn wire_of_msg(m: crate::data::ConfigMessageV) -> Seq<u8> {
        vstd::utf8::encode_utf8(crate::json::penc(crate::codec::msg_json(m)))
    }

    /// The bytes one worker reply occupies on the wire, delimiter excluded.
    pub open spec fn wire_of_server(m: crate::data::ServerMessageV) -> Seq<u8> {
        vstd::utf8::encode_utf8(crate::json::penc(crate::codec::server_json(m)))
    }

    /// Queues one admin request as a frame; see [`Channel::write_frame`].
    pub fn write_message(&mut self, m: &ConfigMessage) -> (r: Result<(), ChannelError>)
        requires
            old(self).wf(),
        ensures
            final(self).wf(),
            final(self).read_buf == old(self).read_buf,
            final(self).max == old(self).max,
            r matches Result::Ok(()) ==> frames(final(self).write_buf@) == frames(
                old(self).write_buf@,
            ).push(Self::wire_of_msg(m@)),
            r matches Result::Err(ChannelError::BackPressure) ==> *final(self) == *old(self)
                && old(self).write_buf@.len() + Self::wire_of_msg(m@).len() + 1 > old(self).max,
            !(r matches Result::Err(ChannelError::WouldBlock)) && !(r matches Result::Err(
                ChannelError::PeerClosed,
            )) && !(r matches Result::Err(ChannelError::Decode)),
    {
        let text = encode_config_message(m);
        let bytes = text.as_str().as_bytes_vec();
        proof {
            crate::json::lemma_penc_printable(crate::codec::msg_json(m@));
            lemma_printable_utf8_no_nul(text@);
        }
        self.write_frame(&bytes)
    }

    /// Queues one worker reply as a frame; see [`Channel::write_frame`].
    pub fn write_server_message(&mut self, m: &ServerMessage) -> (r: Result<(), ChannelError>)
        requires
            old(self).wf(),
        ensures
            final(self).wf(),
            final(self).read_buf == old(self).read_buf,
            final(self).max == old(self).max,
            r matches Result::Ok(()) ==> frames(final(self).write_buf@) == frames(
                old(self).write_buf@,
            ).push(Self::wire_of_server(m@)),
            r matches Result::Err(ChannelError::BackPressure) ==> *final(self) == *old(self)
                && old(self).write_buf@.len() + Self::wire_of_server(m@).len() + 1 > old(
                self,
            ).max,
            !(r matches Result::Err(ChannelError::WouldBlock)) && !(r matches Result::Err(
                ChannelError::PeerClosed,
            )) && !(r matches Result::Err(ChannelError::Decode)),
    {
        let text = encode_server_message(m);
        let bytes = text.as_str().as_bytes_vec();
        proof {
            crate::json::lemma_penc_printable(crate::codec::server_json(m@));
            lemma_printable_utf8_no_nul(text@);
        }
        self.write_frame(&bytes)
    }

    /// The next buffered frame as text: the frame leaves the buffer, and
    /// is refused as `Decode` where its bytes are not UTF-8.
    pub fn read_frame_text(&mut self) -> (r: Result<String, ChannelError>)
        ensures
            final(self).write_buf == old(self).write_buf,
            final(self).max == old(self).max,
            old(self).wf() ==> final(self).wf(),
            match r {
                Result::Ok(s) => {
                    let k = first_nul(old(self).read_buf@);
                    0 <= k < old(self).read_buf@.len() && final(self).read_buf@ == old(
                        self,
                    ).read_buf@.skip(k + 1) && vstd::utf8::valid_utf8(
                        old(self).read_buf@.take(k),
                    ) && s@ == vstd::utf8::decode_utf8(old(self).read_buf@.take(k)) && frames(
                        old(self).read_buf@,
                    ) == seq![old(self).read_buf@.take(k)] + frames(final(self).read_buf@)
                },
                Result::Err(ChannelError::WouldBlock) => final(self).read_buf == old(
                    self,
                ).read_buf && first_nul(old(self).read_buf@) < 0,
                Result::Err(ChannelError::Decode) => {
                    let k = first_nul(old(self).read_buf@);
                    0 <= k < old(self).read_buf@.len() && final(self).read_buf@ == old(
                        self,
                    ).read_buf@.skip(k + 1) && !vstd::utf8::valid_utf8(
                        old(self).read_buf@.take(k),
                    )
                },
                _ => false,
            },
    {
        match self.read_frame() {
            Result::Err(e) => Result::Err(e),
            Result::Ok(p) => match bytes_to_string(p) {
                Option::None => Result::Err(ChannelError::Decode),
                Option::Some(s) => Result::Ok(s),
            },
        }
    }

    /// Whether a frame's bytes are one well-formed worker reply.
    pub open spec fn server_frame_wellformed(frame: Seq<u8>) -> bool {
        vstd::utf8::valid_utf8(frame) && (match crate::json::pjson(
            vstd::utf8::decode_utf8(frame),
        ) {
            Option::Some(jv) => crate::codec::server_of_json(jv) is Some,
            Option::None => false,
        })
    }

    /// What a well-decoded admin frame must hold, per the wire grammar.
    pub open spec fn config_frame_reads(frame: Seq<u8>, inner: Result<
        ConfigMessage,
        ProtocolError,
    >) -> bool {
        match crate::json::pjson(vstd::utf8::decode_utf8(frame)) {
            Option::None => inner matches Result::Err(e) && e@
                == crate::data::ProtocolErrorV::Decode,
            Option::Some(jv) => match crate::codec::msg_of_json(jv) {
                Result::Ok(mv) => inner matches Result::Ok(m) && m@ == mv,
                Result::Err(ev) => inner matches Result::Err(e) && e@ == ev,
            },
        }
    }

    /// What a well-decoded worker reply frame must hold.
    pub open spec fn server_frame_reads(frame: Seq<u8>, m: ServerMessageV) -> bool {
        match crate::json::pjson(vstd::utf8::decode_utf8(frame)) {
            Option::Some(jv) => crate::codec::server_of_json(jv) == Option::Some(m),
            Option::None => false,
        }
    }

    /// The next buffered frame as a worker reply, or `Decode` where the
    /// frame is not one.
    pub fn read_server_message(&mut self) -> (r: Result<ServerMessage, ChannelError>)
        ensures
            final(self).write_buf == old(self).write_buf,
            final(self).max == old(self).max,
            old(self).wf() ==> final(self).wf(),
            match r {
                Result::Ok(m) => {
                    let k = first_nul(old(self).read_buf@);
                    let frame = old(self).read_buf@.take(k);
                    0 <= k < old(self).read_buf@.len() && vstd::utf8::valid_utf8(frame)
                        && Self::server_frame_reads(frame, m@) && final(self).read_buf@ == old(
                        self,
                    ).read_buf@.skip(k + 1)
                },
                Result::Err(ChannelError::WouldBlock) => final(self).read_buf == old(
                    self,
                ).read_buf && first_nul(old(self).read_buf@) < 0,
                Result::Err(ChannelError::Decode) => {
                    let k = first_nul(old(self).read_buf@);
                    0 <= k < old(self).read_buf@.len() && final(self).read_buf@ == old(
                        self,
                    ).read_buf@.skip(k + 1) && !Self::server_frame_wellformed(
                        old(self).read_buf@.take(k),
                    )
                },
                _ => false,
            },
    {
        match self.read_frame_text() {
            Result::Err(e) => Result::Err(e),
            Result::Ok(s) => match parse_server_message(s.as_str()) {
                Option::None => Result::Err(ChannelError::Decode),
                Option::Some(m) => Result::Ok(m),
            },
        }
    }

    /// The next buffered frame as an admin request: the message, a
    /// protocol error to answer, or a channel error.
    pub fn read_config_message(&mut self) -> (r: Result<
        Result<ConfigMessage, ProtocolError>,
        ChannelError,
    >)
        ensures
            final(self).write_buf == old(self).write_buf,
            final(self).max == old(self).max,
            old(self).wf() ==> final(self).wf(),
            match r {
                Result::Ok(inner) => {
                    let k = first_nul(old(self).read_buf@);
                    let frame = old(self).read_buf@.take(k);
                    0 <= k < old(self).read_buf@.len() && vstd::utf8::valid_utf8(frame)
                        && Self::config_frame_reads(frame, inner) && final(self).read_buf@ == old(
                        self,
                    ).read_buf@.skip(k + 1)
                },
                Result::Err(ChannelError::WouldBlock) => final(self).read_buf == old(
                    self,
                ).read_buf && first_nul(old(self).read_buf@) < 0,
                Result::Err(ChannelError::Decode) => {
                    let k = first_nul(old(self).read_buf@);
                    0 <= k < old(self).read_buf@.len() && final(self).read_buf@ == old(
                        self,
                    ).read_buf@.skip(k + 1) && !vstd::utf8::valid_utf8(
                        old(self).read_buf@.take(k),
                    )
                },
                _ => false,
            },
    {
        match self.read_frame_text() {
            Result::Err(e) => Result::Err(e),
            Result::Ok(s) => Result::Ok(parse_config_message(s.as_str())),
        }
    }
}

} // verus!
