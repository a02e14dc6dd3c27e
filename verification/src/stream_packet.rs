//! The STREAM packet: sequence, packet type, amount and frames, carried
//! encrypted inside the data of a Prepare or of a reply. Encoding is
//! length-prefixed and self-delimiting; unknown frame types are ignored
//! on decode for forward compatibility, and frame order is preserved.

use vstd::prelude::*;
use crate::oer::{
    lemma_enc_len_len,
    lemma_subrange_split,
    be_len,
    dec_var,
    dec_var_u64,
    enc_len,
    enc_var,
    enc_var_u64,
    lemma_be_len_u64,
    lemma_dec_enc_var,
    lemma_dec_enc_var_u64,
    read_var,
    read_var_u64,
    write_var,
    write_var_u64,
};

verus! {

/// The STREAM protocol version encoded in every packet.
pub const STREAM_VERSION: u8 = 1;

/// Wire discriminant of a `ConnectionClose` frame.
pub const FRAME_CONNECTION_CLOSE: u8 = 1;

/// Wire discriminant of a `ConnectionNewAddress` frame.
pub const FRAME_CONNECTION_NEW_ADDRESS: u8 = 2;

/// Wire discriminant of a `ConnectionAssetDetails` frame.
pub const FRAME_CONNECTION_ASSET_DETAILS: u8 = 7;

/// Wire discriminant of a `StreamMoney` frame.
pub const FRAME_STREAM_MONEY: u8 = 17;

/// The three ILP packet kinds a STREAM packet can speak about.
#[derive(Debug, Clone, Copy, PartialEq, Eq, Structural)]
pub enum IlpPacketType {
    Prepare,
    Fulfill,
    Reject,
}

/// The wire byte of an ILP packet kind.
pub open spec fn type_byte(t: IlpPacketType) -> u8 {
    match t {
        IlpPacketType::Prepare => 12,
        IlpPacketType::Fulfill => 13,
        IlpPacketType::Reject => 14,
    }
}

/// The ILP packet kind of a wire byte.
pub open spec fn byte_type(b: u8) -> Option<IlpPacketType> {
    if b == 12 {
        Some(IlpPacketType::Prepare)
    } else if b == 13 {
        Some(IlpPacketType::Fulfill)
    } else if b == 14 {
        Some(IlpPacketType::Reject)
    } else {
        None
    }
}

impl IlpPacketType {
    /// The wire byte of this packet kind.
    pub fn to_byte(&self) -> (r: u8)
        ensures
            r == type_byte(*self),
    {
        match self {
            IlpPacketType::Prepare => 12,
            IlpPacketType::Fulfill => 13,
            IlpPacketType::Reject => 14,
        }
    }

    /// Parses a wire byte into a packet kind.
    pub fn from_byte(b: u8) -> (r: Option<IlpPacketType>)
        ensures
            r == byte_type(b),
    {
        if b == 12 {
            Some(IlpPacketType::Prepare)
        } else if b == 13 {
            Some(IlpPacketType::Fulfill)
        } else if b == 14 {
            Some(IlpPacketType::Reject)
        } else {
            None
        }
    }
}

/// A STREAM frame.
#[derive(Debug, Clone, PartialEq, Eq)]
pub enum Frame {
    /// The sender is closing the connection.
    ConnectionClose { code: u8, message: Vec<u8> },
    /// Tells the peer the sender's ILP address.
    ConnectionNewAddress { source_account: Vec<u8> },
    /// Tells the peer an endpoint's asset code and scale.
    ConnectionAssetDetails { source_asset_code: Vec<u8>, source_asset_scale: u8 },
    /// Money is carried on the given stream.
    StreamMoney { stream_id: u64, shares: u64 },
}

/// The mathematical image of a frame.
pub enum FrameV {
    ConnectionClose { code: u8, message: Seq<u8> },
    ConnectionNewAddress { source_account: Seq<u8> },
    ConnectionAssetDetails { source_asset_code: Seq<u8>, source_asset_scale: u8 },
    StreamMoney { stream_id: u64, shares: u64 },
}

impl View for Frame {
    type V = FrameV;

    open spec fn view(&self) -> FrameV {
        match self {
            Frame::ConnectionClose { code, message } => FrameV::ConnectionClose {
                code: *code,
                message: message@,
            },
            Frame::ConnectionNewAddress { source_account } => FrameV::ConnectionNewAddress {
                source_account: source_account@,
            },
            Frame::ConnectionAssetDetails { source_asset_code, source_asset_scale } => {
                FrameV::ConnectionAssetDetails {
                    source_asset_code: source_asset_code@,
                    source_asset_scale: *source_asset_scale,
                }
            },
            Frame::StreamMoney { stream_id, shares } => FrameV::StreamMoney {
                stream_id: *stream_id,
                shares: *shares,
            },
        }
    }
}

/// Does the frame fit the wire's length fields?
pub open spec fn frame_wf(f: FrameV) -> bool {
    match f {
        FrameV::ConnectionClose { message, .. } => message.len() + 16 <= usize::MAX,
        FrameV::ConnectionNewAddress { source_account } => source_account.len() + 16 <= usize::MAX,
        FrameV::ConnectionAssetDetails { source_asset_code, .. } => source_asset_code.len() + 16
            <= usize::MAX,
        FrameV::StreamMoney { .. } => true,
    }
}

/// The wire discriminant of a frame.
pub open spec fn frame_type_byte(f: FrameV) -> u8 {
    match f {
        FrameV::ConnectionClose { .. } => FRAME_CONNECTION_CLOSE,
        FrameV::ConnectionNewAddress { .. } => FRAME_CONNECTION_NEW_ADDRESS,
        FrameV::ConnectionAssetDetails { .. } => FRAME_CONNECTION_ASSET_DETAILS,
        FrameV::StreamMoney { .. } => FRAME_STREAM_MONEY,
    }
}

/// The content bytes of a frame, without discriminant or length prefix.
pub open spec fn enc_frame_content(f: FrameV) -> Seq<u8> {
    match f {
        FrameV::ConnectionClose { code, message } => seq![code] + enc_var(message),
        FrameV::ConnectionNewAddress { source_account } => enc_var(source_account),
        FrameV::ConnectionAssetDetails { source_asset_code, source_asset_scale } => enc_var(
            source_asset_code,
        ) + seq![source_asset_scale],
        FrameV::StreamMoney { stream_id, shares } => enc_var_u64(stream_id as nat) + enc_var_u64(
            shares as nat,
        ),
    }
}

/// The full encoding of one frame.
pub open spec fn enc_frame(f: FrameV) -> Seq<u8> {
    seq![frame_type_byte(f)] + enc_var(enc_frame_content(f))
}

/// The concatenated encoding of a list of frames.
pub open spec fn enc_frames(fs: Seq<FrameV>) -> Seq<u8>
    decreases fs.len(),
{
    if fs.len() == 0 {
        Seq::empty()
    } else {
        enc_frame(fs[0]) + enc_frames(fs.drop_first())
    }
}

/// A STREAM packet.
#[derive(Debug, Clone, PartialEq, Eq)]
pub struct StreamPacket {
    /// Which ILP packet this STREAM packet rides in or replies to.
    pub ilp_packet_type: IlpPacketType,
    /// On a Prepare: the minimum destination amount demanded. On a
    /// reply: the amount the receiver claims arrived.
    pub prepare_amount: u64,
    /// The monotonic sequence number within the connection.
    pub sequence: u64,
    /// The ordered frames of the packet.
    pub frames: Vec<Frame>,
}

/// The mathematical image of a STREAM packet.
pub struct StreamPacketV {
    pub ilp_packet_type: IlpPacketType,
    pub prepare_amount: u64,
    pub sequence: u64,
    pub frames: Seq<FrameV>,
}

impl View for StreamPacket {
    type V = StreamPacketV;

    open spec fn view(&self) -> StreamPacketV {
        StreamPacketV {
            ilp_packet_type: self.ilp_packet_type,
            prepare_amount: self.prepare_amount,
            sequence: self.sequence,
            frames: self.frames@.map_values(|f: Frame| f@),
        }
    }
}

/// Are all frames of the packet within the wire's length fields?
pub open spec fn packet_wf(p: StreamPacketV) -> bool {
    forall|i: int| 0 <= i < p.frames.len() ==> frame_wf(#[trigger] p.frames[i])
}

/// The full plaintext encoding of a STREAM packet.
pub open spec fn enc_stream_packet(p: StreamPacketV) -> Seq<u8> {
    seq![STREAM_VERSION, type_byte(p.ilp_packet_type)] + enc_var_u64(p.sequence as nat)
        + enc_var_u64(p.prepare_amount as nat) + enc_var_u64(p.frames.len() as nat) + enc_frames(
        p.frames,
    )
}

/// Decodes one frame at `i`: `None` on malformed input, otherwise the
/// frame (or no frame, when the discriminant is unknown) and the next
/// position.
pub open spec fn dec_frame(s: Seq<u8>, i: int) -> Option<(Option<FrameV>, int)> {
    if !(0 <= i < s.len()) {
        None
    } else {
        let t = s[i];
        match dec_var(s, i + 1) {
            None => None,
            Some((c, j)) => if t == FRAME_CONNECTION_CLOSE {
                if c.len() >= 1 {
                    match dec_var(c, 1) {
                        Some((m, e)) => if e == c.len() {
                            Some((Some(FrameV::ConnectionClose { code: c[0], message: m }), j))
                        } else {
                            None
                        },
                        None => None,
                    }
                } else {
                    None
                }
            } else if t == FRAME_CONNECTION_NEW_ADDRESS {
                match dec_var(c, 0) {
                    Some((a, e)) => if e == c.len() {
                        Some((Some(FrameV::ConnectionNewAddress { source_account: a }), j))
                    } else {
                        None
                    },
                    None => None,
                }
            } else if t == FRAME_CONNECTION_ASSET_DETAILS {
                match dec_var(c, 0) {
                    Some((a, e)) => if e + 1 == c.len() {
                        Some(
                            (
                                Some(
                                    FrameV::ConnectionAssetDetails {
                                        source_asset_code: a,
                                        source_asset_scale: c[e],
                                    },
                                ),
                                j,
                            ),
                        )
                    } else {
                        None
                    },
                    None => None,
                }
            } else if t == FRAME_STREAM_MONEY {
                match dec_var_u64(c, 0) {
                    Some((id, e1)) => match dec_var_u64(c, e1) {
                        Some((sh, e2)) => if e2 == c.len() {
                            Some((Some(FrameV::StreamMoney { stream_id: id, shares: sh }), j))
                        } else {
                            None
                        },
                        None => None,
                    },
                    None => None,
                }
            } else {
                Some((None, j))
            },
        }
    }
}

/// Decodes `n` frames starting at `i`, keeping the known ones in order.
pub open spec fn dec_frames(s: Seq<u8>, i: int, n: nat) -> Option<(Seq<FrameV>, int)>
    decreases n,
{
    if n == 0 {
        Some((Seq::empty(), i))
    } else {
        match dec_frame(s, i) {
            None => None,
            Some((of, j)) => match dec_frames(s, j, (n - 1) as nat) {
                None => None,
                Some((fs, e)) => match of {
                    Some(f) => Some((seq![f] + fs, e)),
                    None => Some((fs, e)),
                },
            },
        }
    }
}

/// Decodes a whole plaintext STREAM packet.
pub open spec fn dec_stream_packet(s: Seq<u8>) -> Option<StreamPacketV> {
    if s.len() < 2 || s[0] != STREAM_VERSION {
        None
    } else {
        match byte_type(s[1]) {
            None => None,
            Some(t) => match dec_var_u64(s, 2) {
                None => None,
                Some((sequence, i1)) => match dec_var_u64(s, i1) {
                    None => None,
                    Some((amount, i2)) => match dec_var_u64(s, i2) {
                        None => None,
                        Some((n, i3)) => match dec_frames(s, i3, n as nat) {
                            None => None,
                            Some((fs, e)) => if e == s.len() {
                                Some(
                                    StreamPacketV {
                                        ilp_packet_type: t,
                                        prepare_amount: amount,
                                        sequence,
                                        frames: fs,
                                    },
                                )
                            } else {
                                None
                            },
                        },
                    },
                },
            },
        }
    }
}

/// Appends the encoding of one frame.
pub fn write_frame(out: &mut Vec<u8>, f: &Frame)
    ensures
        final(out)@ == old(out)@ + enc_frame(f@),
{
    let mut c: Vec<u8> = Vec::new();
    let tb: u8;
    match f {
        Frame::ConnectionClose { code, message } => {
            c.push(*code);
            assert(c@ =~= seq![*code]);
            write_var(&mut c, message);
            tb = FRAME_CONNECTION_CLOSE;
            assert(c@ == enc_frame_content(f@));
        },
        Frame::ConnectionNewAddress { source_account } => {
            write_var(&mut c, source_account);
            tb = FRAME_CONNECTION_NEW_ADDRESS;
            assert(c@ =~= enc_frame_content(f@));
        },
        Frame::ConnectionAssetDetails { source_asset_code, source_asset_scale } => {
            write_var(&mut c, source_asset_code);
            c.push(*source_asset_scale);
            assert(c@ =~= enc_var(source_asset_code@) + seq![*source_asset_scale]);
            tb = FRAME_CONNECTION_ASSET_DETAILS;
            assert(c@ == enc_frame_content(f@));
        },
        Frame::StreamMoney { stream_id, shares } => {
            write_var_u64(&mut c, *stream_id);
            write_var_u64(&mut c, *shares);
            tb = FRAME_STREAM_MONEY;
            assert(c@ =~= enc_frame_content(f@));
        },
    }
    out.push(tb);
    write_var(out, &c);
    assert(out@ =~= old(out)@ + enc_frame(f@));
}

/// Splitting off the last frame splits its encoding.
pub proof fn lemma_enc_frames_snoc(fs: Seq<FrameV>, i: int)
    requires
        0 <= i < fs.len(),
    ensures
        enc_frames(fs.take(i + 1)) == enc_frames(fs.take(i)) + enc_frame(fs[i]),
    decreases i,
{
    if i == 0 {
        assert(fs.take(1).drop_first() =~= Seq::<FrameV>::empty());
        assert(fs.take(0) =~= Seq::<FrameV>::empty());
        assert(fs.take(1)[0] == fs[0]);
        assert(enc_frames(fs.take(1)) =~= enc_frames(fs.take(0)) + enc_frame(fs[0]));
    } else {
        lemma_enc_frames_snoc(fs.drop_first(), i - 1);
        assert(fs.take(i + 1).drop_first() =~= fs.drop_first().take(i));
        assert(fs.take(i).drop_first() =~= fs.drop_first().take(i - 1));
        assert(fs.take(i + 1)[0] == fs[0]);
        assert(fs.take(i)[0] == fs[0]);
        assert(fs.drop_first()[i - 1] == fs[i]);
        assert(enc_frames(fs.take(i + 1)) == enc_frame(fs[0]) + enc_frames(fs.drop_first().take(i)));
        assert(enc_frames(fs.take(i)) == enc_frame(fs[0]) + enc_frames(fs.drop_first().take(i - 1)));
        assert(enc_frame(fs[0]) + (enc_frames(fs.drop_first().take(i - 1)) + enc_frame(fs[i]))
            =~= (enc_frame(fs[0]) + enc_frames(fs.drop_first().take(i - 1))) + enc_frame(fs[i]));
    }
}

/// Encodes a whole STREAM packet to plaintext bytes.
#[verifier::loop_isolation(false)]
pub fn serialize_stream_packet(p: &StreamPacket) -> (r: Vec<u8>)
    ensures
        r@ == enc_stream_packet(p@),
{
    let mut out: Vec<u8> = Vec::new();
    out.push(STREAM_VERSION);
    out.push(p.ilp_packet_type.to_byte());
    assert(out@ =~= seq![STREAM_VERSION, type_byte(p@.ilp_packet_type)]);
    write_var_u64(&mut out, p.sequence);
    write_var_u64(&mut out, p.prepare_amount);
    write_var_u64(&mut out, p.frames.len() as u64);
    let ghost head: Seq<u8> = out@;
    assert(enc_frames(p@.frames.take(0)) =~= Seq::<u8>::empty());
    assert(out@ =~= head + enc_frames(p@.frames.take(0)));
    let mut i: usize = 0;
    while i < p.frames.len()
        invariant
            i <= p.frames@.len(),
            out@ == head + enc_frames(p@.frames.take(i as int)),
        decreases p.frames@.len() - i,
    {
        write_frame(&mut out, &p.frames[i]);
        proof {
            lemma_enc_frames_snoc(p@.frames, i as int);
            assert(p@.frames[i as int] == p.frames@[i as int]@);
            assert(out@ =~= head + enc_frames(p@.frames.take(i + 1)));
        }
        i = i + 1;
    }
    proof {
        assert(p@.frames.take(p@.frames.len() as int) =~= p@.frames);
        assert(out@ =~= enc_stream_packet(p@));
    }
    out
}

/// Reads one frame at `pos`, as `dec_frame` describes.
pub fn read_frame(buf: &Vec<u8>, pos: usize) -> (r: Option<(Option<Frame>, usize)>)
    ensures
        match r {
            Some((of, j)) => {
                &&& dec_frame(buf@, pos as int) == Some(
                    (
                        match of {
                            Some(f) => Some(f@),
                            None => None::<FrameV>,
                        },
                        j as int,
                    ),
                )
                &&& j <= buf@.len()
            },
            None => dec_frame(buf@, pos as int) is None,
        },
{
    if pos >= buf.len() {
        return None;
    }
    let t = buf[pos];
    let rv = read_var(buf, pos + 1);
    match rv {
        None => None,
        Some((c, j)) => {
            proof {
                assert(dec_var(buf@, pos + 1) == Some((c@, j as int)));
                assert(j <= buf@.len());
            }
            if t == FRAME_CONNECTION_CLOSE {
                if c.len() < 1 {
                    return None;
                }
                let code = c[0];
                match read_var(&c, 1) {
                    Some((m, e)) => {
                        if e == c.len() {
                            Some((Some(Frame::ConnectionClose { code, message: m }), j))
                        } else {
                            None
                        }
                    },
                    None => None,
                }
            } else if t == FRAME_CONNECTION_NEW_ADDRESS {
                match read_var(&c, 0) {
                    Some((a, e)) => {
                        if e == c.len() {
                            Some((Some(Frame::ConnectionNewAddress { source_account: a }), j))
                        } else {
                            None
                        }
                    },
                    None => None,
                }
            } else if t == FRAME_CONNECTION_ASSET_DETAILS {
                match read_var(&c, 0) {
                    Some((a, e)) => {
                        if e < c.len() && e + 1 == c.len() {
                            Some(
                                (
                                    Some(
                                        Frame::ConnectionAssetDetails {
                                            source_asset_code: a,
                                            source_asset_scale: c[e],
                                        },
                                    ),
                                    j,
                                ),
                            )
                        } else {
                            None
                        }
                    },
                    None => None,
                }
            } else if t == FRAME_STREAM_MONEY {
                match read_var_u64(&c, 0) {
                    Some((id, e1)) => match read_var_u64(&c, e1) {
                        Some((sh, e2)) => {
                            if e2 == c.len() {
                                Some((Some(Frame::StreamMoney { stream_id: id, shares: sh }), j))
                            } else {
                                None
                            }
                        },
                        None => None,
                    },
                    None => None,
                }
            } else {
                Some((None, j))
            }
        },
    }
}

/// Parses a whole plaintext STREAM packet, as `dec_stream_packet`
/// describes.
#[verifier::loop_isolation(false)]
pub fn parse_stream_packet(buf: &Vec<u8>) -> (r: Option<StreamPacket>)
    ensures
        match r {
            Some(p) => dec_stream_packet(buf@) == Some(p@),
            None => dec_stream_packet(buf@) is None,
        },
{
    if buf.len() < 2 {
        return None;
    }
    if buf[0] != STREAM_VERSION {
        return None;
    }
    let t = match IlpPacketType::from_byte(buf[1]) {
        Some(t) => t,
        None => {
            return None;
        },
    };
    let (sequence, i1) = match read_var_u64(buf, 2) {
        Some(x) => x,
        None => {
            return None;
        },
    };
    let (amount, i2) = match read_var_u64(buf, i1) {
        Some(x) => x,
        None => {
            return None;
        },
    };
    let (n, i3) = match read_var_u64(buf, i2) {
        Some(x) => x,
        None => {
            return None;
        },
    };
    proof {
        assert(i3 <= buf@.len());
    }
    let mut frames: Vec<Frame> = Vec::new();
    let mut pos: usize = i3;
    let mut k: u64 = 0;
    while k < n
        invariant
            k <= n,
            pos <= buf@.len(),
            ({
                let whole = dec_frames(buf@, i3 as int, n as nat);
                let rest = dec_frames(buf@, pos as int, (n - k) as nat);
                match rest {
                    None => whole is None,
                    Some((fs, e)) => whole matches Some((fs2, e2)) && e2 == e && fs2
                        == frames@.map_values(|f: Frame| f@) + fs,
                }
            }),
        decreases n - k,
    {
        match read_frame(buf, pos) {
            None => {
                return None;
            },
            Some((of, j)) => {
                match of {
                    Some(f) => {
                        let ghost old_map = frames@.map_values(|fr: Frame| fr@);
                        let ghost fv = f@;
                        frames.push(f);
                        proof {
                            assert(frames@.map_values(|fr: Frame| fr@) =~= old_map + seq![fv]);
                            let rest2 = dec_frames(buf@, j as int, (n - k - 1) as nat);
                            match rest2 {
                                None => {},
                                Some((fs, e)) => {
                                    assert(old_map + (seq![fv] + fs) =~= (old_map + seq![fv]) + fs);
                                },
                            }
                        }
                    },
                    None => {
                    },
                }
                pos = j;
                k = k + 1;
            },
        }
    }
    if pos != buf.len() {
        return None;
    }
    proof {
        assert(frames@.map_values(|f: Frame| f@) + Seq::<FrameV>::empty() =~= frames@.map_values(
            |f: Frame| f@,
        ));
    }
    Some(
        StreamPacket {
            ilp_packet_type: t,
            prepare_amount: amount,
            sequence,
            frames,
        },
    )
}

/// A frame's encoding decodes to the same frame.
#[verifier::rlimit(100)]
#[verifier::spinoff_prover]
pub proof fn lemma_dec_enc_frame(s: Seq<u8>, i: int, f: FrameV)
    requires
        0 <= i,
        frame_wf(f),
        i + enc_frame(f).len() <= s.len(),
        s.subrange(i, i + enc_frame(f).len()) == enc_frame(f),
    ensures
        dec_frame(s, i) == Some((Some(f), i + enc_frame(f).len())),
{
    let content = enc_frame_content(f);
    let tb = seq![frame_type_byte(f)];
    let body = enc_var(content);
    assert(enc_frame(f) == tb + body);
    lemma_subrange_split(s, i, tb, body);
    assert(s[i] == frame_type_byte(f)) by {
        assert(s.subrange(i, i + 1)[0] == tb[0]);
    }
    match f {
        FrameV::ConnectionClose { code, message } => {
            lemma_enc_len_len(message.len());
            assert(enc_var(message).len() == enc_len(message.len()).len() + message.len());
            assert(content.len() <= usize::MAX);
        },
        FrameV::ConnectionNewAddress { source_account } => {
            lemma_enc_len_len(source_account.len());
            assert(content.len() <= usize::MAX);
        },
        FrameV::ConnectionAssetDetails { source_asset_code, .. } => {
            lemma_enc_len_len(source_asset_code.len());
            assert(content.len() <= usize::MAX);
        },
        FrameV::StreamMoney { stream_id, shares } => {
            lemma_be_len_u64(stream_id);
            lemma_be_len_u64(shares);
            crate::oer::lemma_be_enc_val(stream_id as nat, be_len(stream_id as nat));
            crate::oer::lemma_be_enc_val(shares as nat, be_len(shares as nat));
            assert(enc_len(be_len(stream_id as nat)).len() == 1);
            assert(enc_len(be_len(shares as nat)).len() == 1);
            assert(content.len() <= 18);
        },
    }
    assert(content.len() <= usize::MAX);
    lemma_dec_enc_var(s, i + 1, content);
    let j = i + 1 + body.len();
    assert(dec_var(s, i + 1) == Some((content, j)));
    match f {
        FrameV::ConnectionClose { code, message } => {
            let inner = enc_var(message);
            assert(content == seq![code] + inner);
            assert(content.subrange(0, content.len() as int) =~= content);
            lemma_subrange_split(content, 0, seq![code], inner);
            assert(content[0] == code) by {
                assert(content.subrange(0, 1)[0] == seq![code][0]);
            }
            lemma_dec_enc_var(content, 1, message);
            assert(dec_var(content, 1) == Some((message, content.len() as int)));
        },
        FrameV::ConnectionNewAddress { source_account } => {
            assert(content.subrange(0, content.len() as int) =~= content);
            lemma_dec_enc_var(content, 0, source_account);
        },
        FrameV::ConnectionAssetDetails { source_asset_code, source_asset_scale } => {
            let inner = enc_var(source_asset_code);
            assert(content == inner + seq![source_asset_scale]);
            assert(content.subrange(0, content.len() as int) =~= content);
            lemma_subrange_split(content, 0, inner, seq![source_asset_scale]);
            lemma_dec_enc_var(content, 0, source_asset_code);
            let e = inner.len() as int;
            assert(content[e] == source_asset_scale) by {
                assert(content.subrange(e, e + 1)[0] == seq![source_asset_scale][0]);
            }
        },
        FrameV::StreamMoney { stream_id, shares } => {
            let a = enc_var_u64(stream_id as nat);
            let b = enc_var_u64(shares as nat);
            assert(content == a + b);
            assert(content.subrange(0, content.len() as int) =~= content);
            lemma_subrange_split(content, 0, a, b);
            lemma_dec_enc_var_u64(content, 0, stream_id);
            lemma_dec_enc_var_u64(content, a.len() as int, shares);
        },
    }
}

/// A frame list's encoding decodes to the same frames.
pub proof fn lemma_dec_enc_frames(s: Seq<u8>, i: int, fs: Seq<FrameV>)
    requires
        0 <= i,
        forall|x: int| 0 <= x < fs.len() ==> frame_wf(#[trigger] fs[x]),
        i + enc_frames(fs).len() <= s.len(),
        s.subrange(i, i + enc_frames(fs).len()) == enc_frames(fs),
    ensures
        dec_frames(s, i, fs.len()) == Some((fs, i + enc_frames(fs).len())),
    decreases fs.len(),
{
    if fs.len() == 0 {
        assert(fs =~= Seq::<FrameV>::empty());
    } else {
        let head = enc_frame(fs[0]);
        let tail = enc_frames(fs.drop_first());
        assert(enc_frames(fs) == head + tail);
        lemma_subrange_split(s, i, head, tail);
        lemma_dec_enc_frame(s, i, fs[0]);
        assert(forall|x: int|
            0 <= x < fs.drop_first().len() ==> frame_wf(#[trigger] fs.drop_first()[x]));
        lemma_dec_enc_frames(s, i + head.len(), fs.drop_first());
        assert(seq![fs[0]] + fs.drop_first() =~= fs);
    }
}

/// The round trip of the plaintext codec: a well-formed STREAM packet's
/// encoding decodes to an equal packet.
#[verifier::rlimit(100)]
#[verifier::spinoff_prover]
pub proof fn lemma_stream_packet_roundtrip(p: StreamPacketV)
    requires
        packet_wf(p),
        p.frames.len() <= usize::MAX,
        enc_stream_packet(p).len() <= usize::MAX,
    ensures
        dec_stream_packet(enc_stream_packet(p)) == Some(p),
{
    let s = enc_stream_packet(p);
    let h = seq![STREAM_VERSION, type_byte(p.ilp_packet_type)];
    let a = enc_var_u64(p.sequence as nat);
    let b = enc_var_u64(p.prepare_amount as nat);
    let c = enc_var_u64(p.frames.len() as nat);
    let fr = enc_frames(p.frames);
    assert(s == h + a + b + c + fr);
    assert(s =~= h + (a + (b + (c + fr))));
    assert(s.subrange(0, s.len() as int) =~= s);
    lemma_subrange_split(s, 0, h, a + (b + (c + fr)));
    assert(s[0] == STREAM_VERSION && s[1] == type_byte(p.ilp_packet_type)) by {
        assert(s.subrange(0, 2)[0] == h[0]);
        assert(s.subrange(0, 2)[1] == h[1]);
    }
    assert(byte_type(type_byte(p.ilp_packet_type)) == Some(p.ilp_packet_type));
    lemma_subrange_split(s, 2, a, b + (c + fr));
    lemma_dec_enc_var_u64(s, 2, p.sequence);
    let i1 = 2 + a.len() as int;
    lemma_subrange_split(s, i1, b, c + fr);
    lemma_dec_enc_var_u64(s, i1, p.prepare_amount);
    let i2 = i1 + b.len() as int;
    lemma_subrange_split(s, i2, c, fr);
    let count = p.frames.len() as u64;
    assert(c == enc_var_u64(count as nat));
    lemma_dec_enc_var_u64(s, i2, count);
    let i3 = i2 + c.len() as int;
    assert(i3 + fr.len() == s.len());
    lemma_dec_enc_frames(s, i3, p.frames);
    assert(dec_frames(s, i3, count as nat) == Some((p.frames, s.len() as int)));
}

} // verus!
