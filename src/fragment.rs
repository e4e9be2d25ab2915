use crate::text::push_all;
use vstd::prelude::*;

verus! {

/// Content type of a TLS handshake record.
pub const TLS_HANDSHAKE: u8 = 0x16;

/// Handshake message type of a ClientHello.
pub const CLIENT_HELLO: u8 = 0x01;

/// The chain layer that splits the first TLS ClientHello record into
/// one-byte records. It leaves plaintext HTTP forwarding alone.
#[derive(Clone, Copy, Debug)]
pub struct Fragment;

impl Fragment {
    pub fn new() -> (r: Fragment) {
        Fragment
    }

    /// Plain HTTP carries no ClientHello, so it is forwarded past this layer.
    pub fn is_http_passthrough(&self) -> (r: bool)
        ensures
            r,
    {
        true
    }
}

/// The first three bytes of a TLS record header, and the length of the whole
/// record (header included).
#[derive(Clone, Copy, Debug)]
pub struct Header {
    pub base: [u8; 3],
    pub len: usize,
}

/// Bytes collected from the writer, with a read position.
#[derive(Debug)]
pub struct Buffer {
    pub inner: Vec<u8>,
    pub ptr: usize,
}

/// The writer side of a fragmenting stream.
#[derive(Debug)]
pub enum State {
    /// Collecting the record header.
    WaitingHeader { buf: Buffer },
    /// Header seen, collecting the rest of the ClientHello record.
    WaitingMessage { buf: Buffer, header: Header },
    /// A whole ClientHello is buffered and is to be sent as one-byte records.
    SendingMessage { buf: Buffer, header: Header },
    /// Buffered bytes are to be sent unchanged from `ptr` on.
    SendingRawBuffer { buf: Buffer },
    /// The handshake record is out: all further bytes pass through.
    SendingData,
}

/// What the writer side holds, seen from outside.
pub enum Phase {
    /// Still deciding; these are the bytes written so far.
    Waiting(Seq<u8>),
    /// Decided; the record bytes and then the raw bytes are still to be sent.
    Pending(Seq<u8>, Seq<u8>),
    /// Passthrough.
    Passthrough,
}

/// How the bytes written so far are to be treated.
pub enum Decision {
    Undecided,
    Bypass,
    Split(nat),
}

/// Big-endian 16-bit length in bytes 3 and 4, plus the 5 header bytes.
pub open spec fn record_len(w: Seq<u8>) -> nat {
    (w[3] as nat) * 256 + (w[4] as nat) + 5
}

pub open spec fn decide(w: Seq<u8>) -> Decision {
    if w.len() == 0 {
        Decision::Undecided
    } else if w[0] != TLS_HANDSHAKE {
        Decision::Bypass
    } else if w.len() < 6 {
        Decision::Undecided
    } else if w[5] != CLIENT_HELLO {
        Decision::Bypass
    } else if w.len() < record_len(w) {
        Decision::Undecided
    } else {
        Decision::Split(record_len(w))
    }
}

/// One record that carries the single byte `b`.
pub open spec fn record(base: Seq<u8>, b: u8) -> Seq<u8> {
    base + seq![0u8, 1u8, b]
}

/// One record per byte of `body`, in order.
pub open spec fn records_of(base: Seq<u8>, body: Seq<u8>) -> Seq<u8>
    decreases body.len(),
{
    if body.len() == 0 {
        Seq::empty()
    } else {
        records_of(base, body.drop_last()) + record(base, body.last())
    }
}

/// The phase reached once exactly the bytes `w` have been written.
pub open spec fn phase_after(w: Seq<u8>) -> Phase {
    match decide(w) {
        Decision::Undecided => Phase::Waiting(w),
        Decision::Bypass => Phase::Pending(Seq::empty(), w),
        Decision::Split(l) => Phase::Pending(
            records_of(w.subrange(0, 3), w.subrange(5, l as int)),
            w.subrange(l as int, w.len() as int),
        ),
    }
}

impl Buffer {
    pub fn new() -> (r: Buffer)
        ensures
            r.inner@.len() == 0,
            r.ptr == 0,
    {
        Buffer { inner: Vec::new(), ptr: 0 }
    }
}

impl Header {
    /// Reads a record header from the first five bytes of `header`.
    pub fn new(header: &[u8]) -> (r: Option<Header>)
        ensures
            match r {
                Some(h) => header@.len() >= 5 && h.base@ == header@.subrange(0, 3) && h.len
                    == record_len(header@),
                None => header@.len() < 5,
            },
    {
        if header.len() < 5 {
            return None;
        }
        let base: [u8; 3] = [header[0], header[1], header[2]];
        let len: usize = (header[3] as usize) * 256 + (header[4] as usize) + 5;
        assert(base@ =~= header@.subrange(0, 3));
        Some(Header { base, len })
    }
}

impl State {
    pub open spec fn wf(&self) -> bool {
        match self {
            State::WaitingHeader { buf } => buf.ptr == 0 && buf.inner@.len() < 6 && decide(
                buf.inner@,
            ) is Undecided,
            State::WaitingMessage { buf, header } => buf.inner@.len() >= 6 && decide(
                buf.inner@,
            ) is Undecided && header.base@ == buf.inner@.subrange(0, 3) && header.len
                == record_len(buf.inner@),
            State::SendingMessage { buf, header } => 5 <= header.len <= buf.inner@.len()
                && header.base@.len() == 3,
            State::SendingRawBuffer { buf } => buf.ptr <= buf.inner@.len(),
            State::SendingData => true,
        }
    }

    pub open spec fn view(&self) -> Phase {
        match self {
            State::WaitingHeader { buf } => Phase::Waiting(buf.inner@),
            State::WaitingMessage { buf, .. } => Phase::Waiting(buf.inner@),
            State::SendingMessage { buf, header } => Phase::Pending(
                records_of(header.base@, buf.inner@.subrange(5, header.len as int)),
                buf.inner@.subrange(header.len as int, buf.inner@.len() as int),
            ),
            State::SendingRawBuffer { buf } => Phase::Pending(
                Seq::empty(),
                buf.inner@.subrange(buf.ptr as int, buf.inner@.len() as int),
            ),
            State::SendingData => Phase::Passthrough,
        }
    }

    /// A fresh stream: nothing written yet.
    pub fn new() -> (r: State)
        ensures
            r.wf(),
            r@ == Phase::Waiting(Seq::empty()),
    {
        let buf = Buffer::new();
        assert(buf.inner@ =~= Seq::empty());
        State::WaitingHeader { buf }
    }

    pub fn is_waiting(&self) -> (r: bool)
        ensures
            r == (self@ is Waiting),
    {
        match self {
            State::WaitingHeader { .. } | State::WaitingMessage { .. } => true,
            _ => false,
        }
    }

    pub fn is_sending_buffer(&self) -> (r: bool)
        ensures
            r == (self@ is Pending),
    {
        match self {
            State::SendingMessage { .. } | State::SendingRawBuffer { .. } => true,
            _ => false,
        }
    }

    pub fn is_handshake_ended(&self) -> (r: bool)
        ensures
            r == (self@ is Passthrough),
    {
        match self {
            State::SendingData => true,
            _ => false,
        }
    }

    /// Gives up waiting for a ClientHello: whatever was buffered is to be
    /// sent unchanged. Returns whether the state was a waiting one.
    pub fn try_into_raw_send(&mut self) -> (r: bool)
        requires
            old(self).wf(),
        ensures
            final(self).wf(),
            r == (old(self)@ is Waiting),
            match old(self)@ {
                Phase::Waiting(w) => final(self)@ == Phase::Pending(Seq::empty(), w),
                _ => *final(self) == *old(self),
            },
    {
        let mut taken = State::SendingData;
        std::mem::swap(self, &mut taken);
        match taken {
            State::WaitingHeader { buf } | State::WaitingMessage { buf, .. } => {
                let b = Buffer { inner: buf.inner, ptr: 0 };
                *self = State::SendingRawBuffer { buf: b };
                assert(b.inner@.subrange(0, b.inner@.len() as int) =~= b.inner@);
                true
            },
            other => {
                *self = other;
                false
            },
        }
    }

    /// The state reached once exactly the bytes `w` have been written.
    fn classify(w: Vec<u8>) -> (r: State)
        ensures
            r.wf(),
            r@ == phase_after(w@),
    {
        if w.len() == 0 {
            return State::WaitingHeader { buf: Buffer { inner: w, ptr: 0 } };
        }
        if w[0] != TLS_HANDSHAKE || (w.len() >= 6 && w[5] != CLIENT_HELLO) {
            proof {
                assert(w@.subrange(0, w@.len() as int) =~= w@);
            }
            return State::SendingRawBuffer { buf: Buffer { inner: w, ptr: 0 } };
        }
        if w.len() < 6 {
            return State::WaitingHeader { buf: Buffer { inner: w, ptr: 0 } };
        }
        let header = match Header::new(w.as_slice()) {
            Some(h) => h,
            None => {
                return State::WaitingHeader { buf: Buffer { inner: w, ptr: 0 } };
            },
        };
        if w.len() < header.len {
            State::WaitingMessage { buf: Buffer { inner: w, ptr: 5 }, header }
        } else {
            State::SendingMessage { buf: Buffer { inner: w, ptr: 5 }, header }
        }
    }

    /// Takes bytes from the writer while the state is waiting. Returns how
    /// many were taken: all of them while waiting, none otherwise.
    pub fn write(&mut self, data: &[u8]) -> (n: usize)
        requires
            old(self).wf(),
        ensures
            final(self).wf(),
            match old(self)@ {
                Phase::Waiting(w) => n == data@.len() && final(self)@ == phase_after(w + data@),
                _ => n == 0 && *final(self) == *old(self),
            },
    {
        let mut taken = State::SendingData;
        std::mem::swap(self, &mut taken);
        match taken {
            State::WaitingHeader { buf } | State::WaitingMessage { buf, .. } => {
                let mut w = buf.inner;
                push_all(&mut w, data);
                *self = State::classify(w);
                data.len()
            },
            other => {
                *self = other;
                0
            },
        }
    }

    /// Hands out everything that is decided and still unsent: the one-byte
    /// records and then the raw bytes. Afterwards all bytes pass through.
    pub fn drain(&mut self) -> (r: (Vec<u8>, Vec<u8>))
        requires
            old(self).wf(),
        ensures
            final(self).wf(),
            match old(self)@ {
                Phase::Pending(rec, raw) => r.0@ == rec && r.1@ == raw && final(self)@
                    is Passthrough,
                _ => r.0@.len() == 0 && r.1@.len() == 0 && *final(self) == *old(self),
            },
    {
        let mut taken = State::SendingData;
        std::mem::swap(self, &mut taken);
        match taken {
            State::SendingMessage { buf, header } => {
                let rec = fragment_records(&header.base, &buf.inner, header.len);
                let raw = tail_of(&buf.inner, header.len);
                (rec, raw)
            },
            State::SendingRawBuffer { buf } => {
                let raw = tail_of(&buf.inner, buf.ptr);
                (Vec::new(), raw)
            },
            other => {
                *self = other;
                (Vec::new(), Vec::new())
            },
        }
    }
}

/// Bytes `from..` of `v`.
fn tail_of(v: &Vec<u8>, from: usize) -> (r: Vec<u8>)
    requires
        from <= v@.len(),
    ensures
        r@ == v@.subrange(from as int, v@.len() as int),
{
    let mut r: Vec<u8> = Vec::new();
    let mut i: usize = from;
    while i < v.len()
        invariant
            from <= i <= v@.len(),
            r@ == v@.subrange(from as int, i as int),
        decreases v@.len() - i,
    {
        r.push(v[i]);
        i = i + 1;
        assert(r@ =~= v@.subrange(from as int, i as int));
    }
    r
}

/// The one-byte records for bytes `5..len` of `buf`, each under `base`.
pub fn fragment_records(base: &[u8; 3], buf: &Vec<u8>, len: usize) -> (r: Vec<u8>)
    requires
        5 <= len <= buf@.len(),
    ensures
        r@ == records_of(base@, buf@.subrange(5, len as int)),
{
    let mut r: Vec<u8> = Vec::new();
    let mut i: usize = 5;
    while i < len
        invariant
            5 <= i <= len <= buf@.len(),
            r@ == records_of(base@, buf@.subrange(5, i as int)),
        decreases len - i,
    {
        let ghost prev = r@;
        r.push(base[0]);
        r.push(base[1]);
        r.push(base[2]);
        r.push(0u8);
        r.push(1u8);
        r.push(buf[i]);
        proof {
            let body = buf@.subrange(5, i + 1);
            assert(body.drop_last() =~= buf@.subrange(5, i as int));
            assert(body.last() == buf@[i as int]);
            assert(r@ =~= prev + record(base@, buf@[i as int]));
        }
        i = i + 1;
    }
    r
}

/// Length and layout of the one-byte records.
pub proof fn lemma_records_layout(base: Seq<u8>, body: Seq<u8>)
    requires
        base.len() == 3,
    ensures
        records_of(base, body).len() == 6 * body.len(),
        forall|k: int|
            0 <= k < body.len() ==> #[trigger] records_of(base, body).subrange(6 * k, 6 * k + 6)
                == seq![base[0], base[1], base[2], 0u8, 1u8, body[k]],
    decreases body.len(),
{
    if body.len() > 0 {
        let prev = body.drop_last();
        lemma_records_layout(base, prev);
        let r = records_of(base, body);
        assert(r == records_of(base, prev) + record(base, body.last()));
        assert forall|k: int| 0 <= k < body.len() implies #[trigger] r.subrange(6 * k, 6 * k + 6)
            == seq![base[0], base[1], base[2], 0u8, 1u8, body[k]] by {
            if k < prev.len() {
                assert(r.subrange(6 * k, 6 * k + 6) =~= records_of(base, prev).subrange(
                    6 * k,
                    6 * k + 6,
                ));
                assert(prev[k] == body[k]);
            } else {
                assert(r.subrange(6 * k, 6 * k + 6) =~= record(base, body.last()));
            }
        }
    }
}

/// A ClientHello record that is complete in the written bytes `w` is sent as
/// one record per byte of its body, each with the original record's first
/// three header bytes and a length of one; the bytes after the record follow
/// unchanged.
pub proof fn lemma_client_hello_split(w: Seq<u8>)
    requires
        w.len() >= 6,
        w[0] == TLS_HANDSHAKE,
        w[5] == CLIENT_HELLO,
        w.len() >= record_len(w),
    ensures
        ({
            let l = record_len(w) as int;
            let rec = records_of(w.subrange(0, 3), w.subrange(5, l));
            &&& phase_after(w) == Phase::Pending(rec, w.subrange(l, w.len() as int))
            &&& rec.len() == 6 * (l - 5)
            &&& forall|k: int|
                0 <= k < l - 5 ==> #[trigger] rec.subrange(6 * k, 6 * k + 6) == seq![
                    w[0],
                    w[1],
                    w[2],
                    0u8,
                    1u8,
                    w[5 + k],
                ]
        }),
{
    let l = record_len(w) as int;
    lemma_records_layout(w.subrange(0, 3), w.subrange(5, l));
}

/// Bytes that do not start a TLS handshake record, or a handshake record
/// that is not a ClientHello, are sent unchanged and in full, with no record
/// bytes before them.
pub proof fn lemma_bypass(w: Seq<u8>)
    requires
        w.len() >= 1,
        w[0] != TLS_HANDSHAKE || (w.len() >= 6 && w[5] != CLIENT_HELLO),
    ensures
        phase_after(w) == Phase::Pending(Seq::empty(), w),
{
}

} // verus!
