//! The binary layout of one message.
//!
//! A message is a fixed 24-byte header, a 4-byte body word holding the
//! descriptor count, one 12-byte descriptor record per transferred endpoint,
//! and then the raw payload bytes; the whole buffer is padded with zero bytes
//! to a 4-byte boundary. All multi-byte fields are little-endian. The
//! header's size field holds the unpadded logical size (header + body +
//! descriptors + payload), so that a receiver recovers the payload length
//! exactly; the buffer itself is the padded size.

use vstd::assert_seqs_equal;
use vstd::bytes::*;
use vstd::prelude::*;
use vstd::slice::slice_subrange;

verus! {

/// Bytes in the fixed message header (bits, size, remote port, local port,
/// reserved, id; four bytes each).
pub const HEADER_SIZE: usize = 24;

/// Bytes in the body word that holds the descriptor count.
pub const BODY_SIZE: usize = 4;

/// Bytes from the start of a message to its first descriptor record.
pub const PREFIX_SIZE: usize = 28;

/// Bytes in one endpoint descriptor record: port name (4), padding (4),
/// more padding (2), disposition tag (1), descriptor type tag (1).
pub const DESCRIPTOR_SIZE: usize = 12;

/// Disposition tag for a transferred receive right: the right moves.
pub const MACH_MSG_TYPE_MOVE_RECEIVE: u8 = 16;

/// Disposition tag for a transferred send right: the right is copied and the
/// local reference is given up.
pub const MACH_MSG_TYPE_COPY_SEND: u8 = 19;

/// Descriptor type tag: every descriptor here is a port descriptor.
pub const MACH_MSG_PORT_DESCRIPTOR: u8 = 0;

/// Header bit marking a message that carries descriptors.
pub const MACH_MSGH_BITS_COMPLEX: u32 = 0x8000_0000;

/// One endpoint descriptor as it travels in a message: the port name and the
/// disposition tag that says whether a receive right moved or a send right
/// was copied.
#[derive(Clone, Copy, PartialEq, Eq, Structural, Debug)]
pub struct PortDescriptor {
    pub port: u32,
    pub disposition: u8,
}

/// `n` rounded up to the next multiple of 4.
pub open spec fn round_up_4(n: int) -> int {
    if n % 4 == 0 {
        n
    } else {
        n - n % 4 + 4
    }
}

/// The unpadded logical size of a message: header, body word, descriptor
/// records, payload.
pub open spec fn spec_unpadded_size(data_len: int, n_ports: int) -> int {
    28 + 12 * n_ports + data_len
}

/// The buffer size of a message: the logical size rounded up to 4 bytes.
pub open spec fn spec_message_size(data_len: int, n_ports: int) -> int {
    round_up_4(spec_unpadded_size(data_len, n_ports))
}

/// The buffer size needed for a message carrying `data_length` payload bytes
/// and `port_length` endpoint descriptors.
pub fn message_size_of(data_length: usize, port_length: usize) -> (size: usize)
    requires
        28 + 12 * (port_length as int) + (data_length as int) + 3 <= usize::MAX,
    ensures
        size == spec_message_size(data_length as int, port_length as int),
{
    let mut size: usize = 28 + 12 * port_length + data_length;
    if (size & 0x3) != 0 {
        proof {
            lemma_mask3_is_mod(size);
        }
        size = (size & !0x3) + 4;
    } else {
        proof {
            lemma_mask3_is_mod(size);
        }
    }
    size
}

/// Bit twiddling on the low two bits agrees with arithmetic modulo 4.
proof fn lemma_mask3_is_mod(n: usize)
    ensures
        (n & 0x3) == n % 4,
        (n & !0x3) == n - n % 4,
{
    assert((n & 0x3) == n % 4 && (n & !0x3) + (n & 0x3) == n) by (bit_vector);
}

/// The 12 bytes of one descriptor record: port name, four bytes of padding,
/// two more, the disposition tag, the descriptor type tag.
pub open spec fn spec_descriptor_bytes(d: PortDescriptor) -> Seq<u8> {
    spec_u32_to_le_bytes(d.port) + seq![0u8, 0u8, 0u8, 0u8] + seq![
        0u8,
        0u8,
        d.disposition,
        MACH_MSG_PORT_DESCRIPTOR,
    ]
}

/// The descriptor records of a message, in order.
pub open spec fn spec_descriptors_bytes(ds: Seq<PortDescriptor>) -> Seq<u8>
    decreases ds.len(),
{
    if ds.len() == 0 {
        Seq::empty()
    } else {
        spec_descriptors_bytes(ds.drop_last()) + spec_descriptor_bytes(ds.last())
    }
}

/// The 28 bytes before the first descriptor: the six header words and the
/// body word holding the descriptor count.
pub open spec fn spec_header_bytes(remote_port: u32, logical_size: u32, n_descriptors: u32) -> Seq<
    u8,
> {
    spec_u32_to_le_bytes((MACH_MSG_TYPE_COPY_SEND as u32) | MACH_MSGH_BITS_COMPLEX)
        + spec_u32_to_le_bytes(logical_size) + spec_u32_to_le_bytes(remote_port)
        + spec_u32_to_le_bytes(0) + spec_u32_to_le_bytes(0) + spec_u32_to_le_bytes(0)
        + spec_u32_to_le_bytes(n_descriptors)
}

/// The whole buffer of one message: header and body word, descriptor
/// records, payload, zero padding to a 4-byte boundary.
pub open spec fn spec_message_bytes(remote_port: u32, payload: Seq<u8>, ds: Seq<PortDescriptor>) -> Seq<u8> {
    let unpadded = spec_unpadded_size(payload.len() as int, ds.len() as int);
    spec_header_bytes(remote_port, unpadded as u32, ds.len() as u32) + spec_descriptors_bytes(ds)
        + payload + Seq::new((round_up_4(unpadded) - unpadded) as nat, |i: int| 0u8)
}

/// The logical size a buffer declares in its header.
pub open spec fn spec_msg_logical_size(b: Seq<u8>) -> int {
    spec_u32_from_le_bytes(b.subrange(4, 8)) as int
}

/// The descriptor count a buffer declares in its body word.
pub open spec fn spec_msg_descriptor_count(b: Seq<u8>) -> int {
    spec_u32_from_le_bytes(b.subrange(24, 28)) as int
}

/// The descriptor record at position `i` of a buffer.
pub open spec fn spec_msg_descriptor(b: Seq<u8>, i: int) -> PortDescriptor {
    PortDescriptor {
        port: spec_u32_from_le_bytes(b.subrange(28 + 12 * i, 28 + 12 * i + 4)),
        disposition: b[28 + 12 * i + 10],
    }
}

/// All descriptor records of a buffer, in order.
pub open spec fn spec_msg_descriptors(b: Seq<u8>) -> Seq<PortDescriptor> {
    Seq::new(spec_msg_descriptor_count(b) as nat, |i: int| spec_msg_descriptor(b, i))
}

/// A buffer is well formed when its declared sizes are consistent: it holds
/// the 28-byte prefix, all declared descriptors fit below the declared
/// logical size, and the logical size fits in the buffer.
pub open spec fn wf_message(b: Seq<u8>) -> bool {
    &&& b.len() >= 28
    &&& 28 + 12 * spec_msg_descriptor_count(b) <= spec_msg_logical_size(b)
    &&& spec_msg_logical_size(b) <= b.len()
}

/// The payload of a well-formed buffer: the bytes between the last
/// descriptor record and the declared logical size.
pub open spec fn spec_msg_payload(b: Seq<u8>) -> Seq<u8> {
    b.subrange(28 + 12 * spec_msg_descriptor_count(b), spec_msg_logical_size(b))
}

/// Builds the buffer for one message carrying `data` and `descriptors`,
/// addressed to `remote_port`.
pub fn build_message(remote_port: u32, data: &[u8], descriptors: &Vec<PortDescriptor>) -> (buf: Vec<
    u8,
>)
    requires
        spec_unpadded_size(data@.len() as int, descriptors@.len() as int) + 3 <= u32::MAX,
    ensures
        buf@ == spec_message_bytes(remote_port, data@, descriptors@),
        buf@.len() == spec_message_size(data@.len() as int, descriptors@.len() as int),
{
    proof {
        lemma_auto_spec_u32_to_from_le_bytes();
    }
    let n = descriptors.len();
    let unpadded: usize = 28 + 12 * n + data.len();
    let mut buf: Vec<u8> = Vec::new();
    let mut word = u32_to_le_bytes((MACH_MSG_TYPE_COPY_SEND as u32) | MACH_MSGH_BITS_COMPLEX);
    buf.append(&mut word);
    let mut word = u32_to_le_bytes(unpadded as u32);
    buf.append(&mut word);
    let mut word = u32_to_le_bytes(remote_port);
    buf.append(&mut word);
    let mut word = u32_to_le_bytes(0);
    buf.append(&mut word);
    let mut word = u32_to_le_bytes(0);
    buf.append(&mut word);
    let mut word = u32_to_le_bytes(0);
    buf.append(&mut word);
    let mut word = u32_to_le_bytes(n as u32);
    buf.append(&mut word);
    let ghost header = spec_header_bytes(remote_port, unpadded as u32, n as u32);
    proof {
        assert_seqs_equal!(buf@ == header);
    }
    let mut i: usize = 0;
    while i < n
        invariant
            i <= n,
            n == descriptors@.len(),
            spec_unpadded_size(data@.len() as int, descriptors@.len() as int) + 3 <= u32::MAX,
            header == spec_header_bytes(remote_port, unpadded as u32, n as u32),
            buf@ == header + spec_descriptors_bytes(descriptors@.subrange(0, i as int)),
        decreases n - i,
    {
        let d = descriptors[i];
        let mut word = u32_to_le_bytes(d.port);
        buf.append(&mut word);
        buf.push(0);
        buf.push(0);
        buf.push(0);
        buf.push(0);
        buf.push(0);
        buf.push(0);
        buf.push(d.disposition);
        buf.push(MACH_MSG_PORT_DESCRIPTOR);
        proof {
            lemma_auto_spec_u32_to_from_le_bytes();
            let pre = descriptors@.subrange(0, i as int);
            let cur = descriptors@.subrange(0, i + 1 as int);
            assert_seqs_equal!(cur.drop_last() == pre);
            assert(cur.last() == descriptors@[i as int]);
            assert_seqs_equal!(buf@ == header + spec_descriptors_bytes(cur));
        }
        i = i + 1;
    }
    proof {
        assert(descriptors@.subrange(0, n as int) == descriptors@);
    }
    let mut payload_copy = vstd::slice::slice_to_vec(data);
    buf.append(&mut payload_copy);
    let total = message_size_of(data.len(), n);
    proof {
        lemma_descriptors_bytes_len(descriptors@);
        assert(buf@.len() == unpadded);
    }
    while buf.len() < total
        invariant
            unpadded <= buf@.len() <= total,
            total == round_up_4(unpadded as int),
            buf@ == (header + spec_descriptors_bytes(descriptors@) + data@) + Seq::new(
                (buf@.len() - unpadded) as nat,
                |j: int| 0u8,
            ),
        decreases total - buf@.len(),
    {
        buf.push(0);
        proof {
            let k = (buf@.len() - unpadded) as nat;
            assert_seqs_equal!(buf@ == (header + spec_descriptors_bytes(descriptors@) + data@)
                + Seq::new(k, |j: int| 0u8));
        }
    }
    proof {
        assert_seqs_equal!(buf@ == spec_message_bytes(remote_port, data@, descriptors@));
    }
    buf
}

/// The length of the descriptor records is 12 bytes per descriptor.
pub proof fn lemma_descriptors_bytes_len(ds: Seq<PortDescriptor>)
    ensures
        spec_descriptors_bytes(ds).len() == 12 * ds.len(),
    decreases ds.len(),
{
    lemma_auto_spec_u32_to_from_le_bytes();
    if ds.len() > 0 {
        lemma_descriptors_bytes_len(ds.drop_last());
    }
}

/// The descriptor records, cut at descriptor `i`, give back that
/// descriptor's own 12 bytes.
pub proof fn lemma_descriptors_bytes_index(ds: Seq<PortDescriptor>, i: int)
    requires
        0 <= i < ds.len(),
    ensures
        spec_descriptors_bytes(ds).subrange(12 * i, 12 * i + 12) == spec_descriptor_bytes(ds[i]),
    decreases ds.len(),
{
    lemma_auto_spec_u32_to_from_le_bytes();
    lemma_descriptors_bytes_len(ds);
    lemma_descriptors_bytes_len(ds.drop_last());
    if i == ds.len() - 1 {
        assert_seqs_equal!(
            spec_descriptors_bytes(ds).subrange(12 * i, 12 * i + 12)
                == spec_descriptor_bytes(ds[i])
        );
    } else {
        lemma_descriptors_bytes_index(ds.drop_last(), i);
        assert(ds.drop_last()[i] == ds[i]);
        assert_seqs_equal!(
            spec_descriptors_bytes(ds).subrange(12 * i, 12 * i + 12)
                == spec_descriptors_bytes(ds.drop_last()).subrange(12 * i, 12 * i + 12)
        );
    }
}

/// Parses a message buffer. Returns the payload and the descriptor records
/// exactly when the buffer is well formed, and nothing otherwise.
pub fn parse_message(buf: &[u8]) -> (r: Option<(Vec<u8>, Vec<PortDescriptor>)>)
    ensures
        (r is Some) == wf_message(buf@),
        r is Some ==> r->Some_0.0@ == spec_msg_payload(buf@),
        r is Some ==> r->Some_0.1@ == spec_msg_descriptors(buf@),
{
    proof {
        lemma_auto_spec_u32_to_from_le_bytes();
    }
    if buf.len() < 28 {
        return None;
    }
    let size32 = u32_from_le_bytes(slice_subrange(buf, 4, 8));
    let count32 = u32_from_le_bytes(slice_subrange(buf, 24, 28));
    let size = size32 as usize;
    let count = count32 as usize;
    assert(size == spec_msg_logical_size(buf@));
    assert(count == spec_msg_descriptor_count(buf@));
    if count > (buf.len() - 28) / 12 {
        proof {
            assert(12 * (count as int) > buf@.len() - 28) by (nonlinear_arith)
                requires
                    count > (buf@.len() - 28) / 12,
                    buf@.len() >= 28,
            ;
        }
        return None;
    }
    proof {
        assert(12 * (count as int) <= buf@.len() - 28) by (nonlinear_arith)
            requires
                count <= (buf@.len() - 28) / 12,
                buf@.len() >= 28,
        ;
    }
    let need = 28 + 12 * count;
    if size < need || size > buf.len() {
        return None;
    }
    let mut ds: Vec<PortDescriptor> = Vec::new();
    let mut i: usize = 0;
    while i < count
        invariant
            i <= count,
            count == spec_msg_descriptor_count(buf@),
            28 + 12 * (count as int) <= buf@.len(),
            buf@.len() <= usize::MAX,
            ds@ == spec_msg_descriptors(buf@).subrange(0, i as int),
        decreases count - i,
    {
        let off = 28 + 12 * i;
        let port = u32_from_le_bytes(slice_subrange(buf, off, off + 4));
        let disposition = *vstd::slice::slice_index_get(buf, off + 10);
        ds.push(PortDescriptor { port, disposition });
        proof {
            assert_seqs_equal!(ds@ == spec_msg_descriptors(buf@).subrange(0, i + 1 as int));
        }
        i = i + 1;
    }
    proof {
        assert_seqs_equal!(ds@ == spec_msg_descriptors(buf@));
    }
    let payload = vstd::slice::slice_to_vec(slice_subrange(buf, need, size));
    Some((payload, ds))
}

/// Parsing inverts building: for every payload and descriptor list whose
/// message fits the size field, the built buffer is well formed and gives
/// back the same payload bytes and the same descriptor records, in order.
pub proof fn lemma_message_round_trip(remote_port: u32, payload: Seq<u8>, ds: Seq<PortDescriptor>)
    requires
        spec_unpadded_size(payload.len() as int, ds.len() as int) + 3 <= u32::MAX,
    ensures
        wf_message(spec_message_bytes(remote_port, payload, ds)),
        spec_msg_payload(spec_message_bytes(remote_port, payload, ds)) == payload,
        spec_msg_descriptors(spec_message_bytes(remote_port, payload, ds)) == ds,
{
    lemma_auto_spec_u32_to_from_le_bytes();
    lemma_descriptors_bytes_len(ds);
    let b = spec_message_bytes(remote_port, payload, ds);
    let unpadded = spec_unpadded_size(payload.len() as int, ds.len() as int);
    let header = spec_header_bytes(remote_port, unpadded as u32, ds.len() as u32);
    assert(header.len() == 28);
    assert(b.len() == round_up_4(unpadded));
    assert_seqs_equal!(b.subrange(4, 8) == spec_u32_to_le_bytes(unpadded as u32));
    assert(spec_msg_logical_size(b) == unpadded);
    assert_seqs_equal!(b.subrange(24, 28) == spec_u32_to_le_bytes(ds.len() as u32));
    assert(spec_msg_descriptor_count(b) == ds.len());
    assert_seqs_equal!(spec_msg_payload(b) == payload);
    assert forall|i: int| 0 <= i < ds.len() implies spec_msg_descriptor(b, i) == ds[i] by {
        lemma_descriptors_bytes_index(ds, i);
        let dbytes = spec_descriptor_bytes(ds[i]);
        assert_seqs_equal!(b.subrange(28 + 12 * i, 28 + 12 * i + 12)
            == spec_descriptors_bytes(ds).subrange(12 * i, 12 * i + 12));
        assert_seqs_equal!(b.subrange(28 + 12 * i, 28 + 12 * i + 4)
            == dbytes.subrange(0, 4));
        assert_seqs_equal!(dbytes.subrange(0, 4) == spec_u32_to_le_bytes(ds[i].port));
        assert(b[28 + 12 * i + 10] == dbytes[10]);
    }
    assert_seqs_equal!(spec_msg_descriptors(b) == ds);
}

} // verus!
