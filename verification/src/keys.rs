//! Fixed-layout binary keys for user-scoped message records.
//!
//! Every multi-byte numeric field is stored big-endian, so that
//! byte-lexicographic order over encoded keys agrees with numeric order over
//! the fields. Decoding is a bounds-checked field extraction: a buffer
//! shorter than the structure's fixed size is rejected, never read past.

use vstd::prelude::*;

use crate::errors::HubError;

verus! {

/// The single-byte root tag of the user-scoped key namespace.
pub const USER_ROOT_TAG: u8 = 1;

/// Byte width of [`UserKeyHeader`]: root tag, big-endian fid, message type.
pub const USER_KEY_HEADER_LEN: usize = 6;

/// Byte width of a content hash.
pub const HASH_LENGTH: usize = 20;

/// Byte width of a timestamp-plus-hash suffix: 4-byte timestamp, 20-byte hash.
pub const TS_HASH_LENGTH: usize = 24;

/// Byte width of an encoded [`MessagePrimaryKey`].
pub const PRIMARY_KEY_LEN: usize = 30;

/// Byte width of an encoded [`MessageActionKey`].
pub const ACTION_KEY_LEN: usize = 26;

// ---------------------------------------------------------------------------
// Big-endian encoding of u32 fields
// ---------------------------------------------------------------------------

/// The most significant byte of `x`.
pub open spec fn be_byte0(x: u32) -> u8 {
    (((x >> 24) & 0xff) as u8)
}

pub open spec fn be_byte1(x: u32) -> u8 {
    (((x >> 16) & 0xff) as u8)
}

pub open spec fn be_byte2(x: u32) -> u8 {
    (((x >> 8) & 0xff) as u8)
}

/// The least significant byte of `x`.
pub open spec fn be_byte3(x: u32) -> u8 {
    ((x & 0xff) as u8)
}

/// The four bytes of `x`, most significant first.
pub open spec fn u32_be_bytes(x: u32) -> Seq<u8> {
    seq![be_byte0(x), be_byte1(x), be_byte2(x), be_byte3(x)]
}

/// The number whose big-endian bytes are `b0 b1 b2 b3`.
pub open spec fn u32_from_be(b0: u8, b1: u8, b2: u8, b3: u8) -> u32 {
    (((b0 as u32) << 24) | ((b1 as u32) << 16) | ((b2 as u32) << 8) | (b3 as u32))
}

proof fn lemma_be_bytes_fit(x: u32)
    ensures
        (x >> 24) & 0xff < 256,
        (x >> 16) & 0xff < 256,
        (x >> 8) & 0xff < 256,
        x & 0xff < 256,
{
    assert((x >> 24) & 0xff < 256 && (x >> 16) & 0xff < 256 && (x >> 8) & 0xff < 256 && x & 0xff
        < 256) by (bit_vector);
}

/// Reassembling the big-endian bytes of `x` gives `x` back.
pub proof fn lemma_u32_be_round_trip(x: u32)
    ensures
        u32_from_be(be_byte0(x), be_byte1(x), be_byte2(x), be_byte3(x)) == x,
{
    assert(((((((x >> 24) & 0xff) as u8) as u32) << 24) | (((((x >> 16) & 0xff) as u8) as u32)
        << 16) | (((((x >> 8) & 0xff) as u8) as u32) << 8) | (((x & 0xff) as u8) as u32)) == x)
        by (bit_vector);
}

/// `x` and `y` differ first at a big-endian byte where `x` holds the smaller
/// value.
pub open spec fn be_bytes_less(x: u32, y: u32) -> bool {
    ||| be_byte0(x) < be_byte0(y)
    ||| be_byte0(x) == be_byte0(y) && be_byte1(x) < be_byte1(y)
    ||| be_byte0(x) == be_byte0(y) && be_byte1(x) == be_byte1(y) && be_byte2(x) < be_byte2(y)
    ||| be_byte0(x) == be_byte0(y) && be_byte1(x) == be_byte1(y) && be_byte2(x) == be_byte2(y)
        && be_byte3(x) < be_byte3(y)
}

/// If `x < y`, the big-endian bytes of `x` are smaller than those of `y` at
/// the first position where they differ.
pub proof fn lemma_u32_be_byte_order(x: u32, y: u32)
    by (bit_vector)
    requires
        x < y,
    ensures
        be_bytes_less(x, y),
{
}

/// Executable counterpart of [`u32_from_be`].
pub fn u32_from_be_exec(b0: u8, b1: u8, b2: u8, b3: u8) -> (x: u32)
    ensures
        x == u32_from_be(b0, b1, b2, b3),
{
    ((b0 as u32) << 24) | ((b1 as u32) << 16) | ((b2 as u32) << 8) | (b3 as u32)
}

/// Append the big-endian bytes of `x` to `out`.
pub fn push_u32_be(out: &mut Vec<u8>, x: u32)
    ensures
        final(out)@ == old(out)@ + u32_be_bytes(x),
{
    proof {
        lemma_be_bytes_fit(x);
    }
    out.push(((x >> 24) & 0xff) as u8);
    out.push(((x >> 16) & 0xff) as u8);
    out.push(((x >> 8) & 0xff) as u8);
    out.push((x & 0xff) as u8);
    proof {
        assert(out@ =~= old(out)@ + u32_be_bytes(x));
    }
}

/// Copy `src[from..to]` into a fresh owned buffer.
pub fn copy_range(src: &[u8], from: usize, to: usize) -> (out: Vec<u8>)
    requires
        from <= to <= src@.len(),
    ensures
        out@ == src@.subrange(from as int, to as int),
{
    let mut out: Vec<u8> = Vec::new();
    let mut i: usize = from;
    while i < to
        invariant
            from <= i <= to <= src@.len(),
            out@ =~= src@.subrange(from as int, i as int),
        decreases to - i,
    {
        out.push(src[i]);
        proof {
            assert(out@ =~= src@.subrange(from as int, (i + 1) as int));
        }
        i += 1;
    }
    proof {
        assert(out@ =~= src@.subrange(from as int, to as int));
    }
    out
}

// ---------------------------------------------------------------------------
// Byte-lexicographic order
// ---------------------------------------------------------------------------

/// `a` comes strictly before `b` in byte-lexicographic order: at the first
/// position where they differ `a` holds the smaller byte, or `a` is a proper
/// prefix of `b`.
pub open spec fn lex_less(a: Seq<u8>, b: Seq<u8>) -> bool {
    exists|i: int|
        #![auto]
        0 <= i <= a.len() && i <= b.len() && (forall|j: int| 0 <= j < i ==> a[j] == b[j]) && ((i
            < a.len() && i < b.len() && a[i] < b[i]) || (i == a.len() && i < b.len()))
}

/// With a common prefix and then the big-endian bytes of `x` against those of
/// `y`, a smaller `x` makes the whole sequence smaller, whatever follows.
pub proof fn lemma_be_order_lex(prefix: Seq<u8>, x: u32, y: u32, tail_x: Seq<u8>, tail_y: Seq<u8>)
    requires
        x < y,
    ensures
        lex_less(prefix + u32_be_bytes(x) + tail_x, prefix + u32_be_bytes(y) + tail_y),
{
    lemma_u32_be_byte_order(x, y);
    let a = prefix + u32_be_bytes(x) + tail_x;
    let b = prefix + u32_be_bytes(y) + tail_y;
    let n = prefix.len() as int;
    assert forall|j: int| 0 <= j < n implies a[j] == b[j] by {
        assert(a[j] == prefix[j]);
        assert(b[j] == prefix[j]);
    }
    assert forall|d: int| 0 <= d < 4 implies a[n + d] == u32_be_bytes(x)[d] && b[n + d]
        == u32_be_bytes(y)[d] by {
        assert((prefix + u32_be_bytes(x))[n + d] == u32_be_bytes(x)[d]);
        assert((prefix + u32_be_bytes(y))[n + d] == u32_be_bytes(y)[d]);
    }
    if be_byte0(x) < be_byte0(y) {
        assert(a[n] < b[n]);
        assert(lex_less(a, b));
    } else if be_byte1(x) < be_byte1(y) {
        assert(a[n + 1] < b[n + 1]);
        assert(forall|j: int| 0 <= j < n + 1 ==> a[j] == b[j]);
        assert(lex_less(a, b));
    } else if be_byte2(x) < be_byte2(y) {
        assert(a[n + 2] < b[n + 2]);
        assert(forall|j: int| 0 <= j < n + 2 ==> a[j] == b[j]);
        assert(lex_less(a, b));
    } else {
        assert(be_byte3(x) < be_byte3(y));
        assert(a[n + 3] < b[n + 3]);
        assert(forall|j: int| 0 <= j < n + 3 ==> a[j] == b[j]);
        assert(lex_less(a, b));
    }
}

// ---------------------------------------------------------------------------
// UserKeyHeader
// ---------------------------------------------------------------------------

/// The fixed-width prefix of every user-scoped key: root tag, account fid
/// (big-endian), message-type tag.
#[derive(Clone, Copy, Debug, PartialEq, Eq, Structural)]
pub struct UserKeyHeader {
    pub root: u8,
    pub fid: u32,
    pub msg_type: u8,
}

impl UserKeyHeader {
    /// The six encoded bytes of this header.
    pub open spec fn encoding(self) -> Seq<u8> {
        seq![
            self.root,
            be_byte0(self.fid),
            be_byte1(self.fid),
            be_byte2(self.fid),
            be_byte3(self.fid),
            self.msg_type,
        ]
    }

    /// A header in the user namespace for the given account and message type.
    pub fn new(fid: u32, msg_type: u8) -> (h: Self)
        ensures
            h.root == USER_ROOT_TAG,
            h.fid == fid,
            h.msg_type == msg_type,
    {
        UserKeyHeader { root: USER_ROOT_TAG, fid, msg_type }
    }

    /// Bounds-checked decode: `None` exactly when the buffer is shorter than
    /// the header's fixed size; otherwise the fields read from the first six
    /// bytes.
    pub fn from_slice(slice: &[u8]) -> (r: Option<UserKeyHeader>)
        ensures
            slice@.len() < USER_KEY_HEADER_LEN ==> r is None,
            slice@.len() >= USER_KEY_HEADER_LEN ==> (r matches Some(h) && h.root == slice@[0]
                && h.fid == u32_from_be(slice@[1], slice@[2], slice@[3], slice@[4]) && h.msg_type
                == slice@[5]),
    {
        if slice.len() < USER_KEY_HEADER_LEN {
            return None;
        }
        Some(
            UserKeyHeader {
                root: slice[0],
                fid: u32_from_be_exec(slice[1], slice[2], slice[3], slice[4]),
                msg_type: slice[5],
            },
        )
    }

    /// Like [`UserKeyHeader::from_slice`], with the insufficient-data
    /// failure made explicit.
    pub fn decode(slice: &[u8]) -> (r: Result<UserKeyHeader, HubError>)
        ensures
            slice@.len() < USER_KEY_HEADER_LEN ==> r == Err::<UserKeyHeader, HubError>(
                HubError::Decode,
            ),
            slice@.len() >= USER_KEY_HEADER_LEN ==> (r matches Ok(h) && h.root == slice@[0]
                && h.fid == u32_from_be(slice@[1], slice@[2], slice@[3], slice@[4]) && h.msg_type
                == slice@[5]),
    {
        match UserKeyHeader::from_slice(slice) {
            Some(h) => Ok(h),
            None => Err(HubError::Decode),
        }
    }

    /// The encoded bytes of this header, in a fresh owned buffer.
    pub fn as_slice(&self) -> (out: Vec<u8>)
        ensures
            out@ == self.encoding(),
            out@.len() == USER_KEY_HEADER_LEN,
    {
        let mut out: Vec<u8> = Vec::new();
        out.push(self.root);
        push_u32_be(&mut out, self.fid);
        out.push(self.msg_type);
        proof {
            assert(out@ =~= self.encoding());
        }
        out
    }
}

// ---------------------------------------------------------------------------
// MessagePrimaryKey
// ---------------------------------------------------------------------------

/// A 30-byte key that sorts by time within a user and message type:
/// header, big-endian timestamp, content hash.
#[derive(Debug)]
pub struct MessagePrimaryKey {
    pub user_header: UserKeyHeader,
    pub timestamp: u32,
    pub content_hash: Vec<u8>,
}

impl MessagePrimaryKey {
    /// The content hash always holds exactly [`HASH_LENGTH`] bytes.
    pub open spec fn wf(self) -> bool {
        self.content_hash@.len() == HASH_LENGTH
    }

    /// The 30 encoded bytes of this key.
    pub open spec fn encoding(self) -> Seq<u8> {
        self.user_header.encoding() + u32_be_bytes(self.timestamp) + self.content_hash@
    }

    /// Build a primary key from a timestamp-plus-hash buffer: the first four
    /// bytes are the big-endian timestamp, the following twenty the content
    /// hash. Rejected with a validation error exactly when the buffer is
    /// shorter than [`TS_HASH_LENGTH`].
    pub fn new(fid: u32, msg_type: u8, hash: &[u8]) -> (r: Result<Self, HubError>)
        ensures
            hash@.len() < TS_HASH_LENGTH ==> r == Err::<Self, HubError>(HubError::Validation),
            hash@.len() >= TS_HASH_LENGTH ==> (r matches Ok(k) && k.wf() && k.user_header.root
                == USER_ROOT_TAG && k.user_header.fid == fid && k.user_header.msg_type == msg_type
                && k.timestamp == u32_from_be(hash@[0], hash@[1], hash@[2], hash@[3])
                && k.content_hash@ == hash@.subrange(4, TS_HASH_LENGTH as int)),
    {
        if hash.len() < TS_HASH_LENGTH {
            return Err(HubError::Validation);
        }
        let timestamp = u32_from_be_exec(hash[0], hash[1], hash[2], hash[3]);
        let content_hash = copy_range(hash, 4, TS_HASH_LENGTH);
        Ok(MessagePrimaryKey { user_header: UserKeyHeader::new(fid, msg_type), timestamp, content_hash })
    }

    /// Bounds-checked decode: `None` exactly when the buffer is shorter than
    /// the key's fixed size; otherwise the fields read from the first thirty
    /// bytes.
    pub fn from_slice(slice: &[u8]) -> (r: Option<Self>)
        ensures
            slice@.len() < PRIMARY_KEY_LEN ==> r is None,
            slice@.len() >= PRIMARY_KEY_LEN ==> (r matches Some(k) && k.wf() && k.user_header.root
                == slice@[0] && k.user_header.fid == u32_from_be(
                slice@[1],
                slice@[2],
                slice@[3],
                slice@[4],
            ) && k.user_header.msg_type == slice@[5] && k.timestamp == u32_from_be(
                slice@[6],
                slice@[7],
                slice@[8],
                slice@[9],
            ) && k.content_hash@ == slice@.subrange(10, PRIMARY_KEY_LEN as int)),
    {
        if slice.len() < PRIMARY_KEY_LEN {
            return None;
        }
        Some(
            MessagePrimaryKey {
                user_header: UserKeyHeader {
                    root: slice[0],
                    fid: u32_from_be_exec(slice[1], slice[2], slice[3], slice[4]),
                    msg_type: slice[5],
                },
                timestamp: u32_from_be_exec(slice[6], slice[7], slice[8], slice[9]),
                content_hash: copy_range(slice, 10, PRIMARY_KEY_LEN),
            },
        )
    }

    /// Like [`MessagePrimaryKey::from_slice`], with the insufficient-data
    /// failure made explicit.
    pub fn decode(slice: &[u8]) -> (r: Result<Self, HubError>)
        ensures
            slice@.len() < PRIMARY_KEY_LEN ==> r == Err::<Self, HubError>(HubError::Decode),
            slice@.len() >= PRIMARY_KEY_LEN ==> (r matches Ok(k) && k.wf() && k.user_header.root
                == slice@[0] && k.user_header.fid == u32_from_be(
                slice@[1],
                slice@[2],
                slice@[3],
                slice@[4],
            ) && k.user_header.msg_type == slice@[5] && k.timestamp == u32_from_be(
                slice@[6],
                slice@[7],
                slice@[8],
                slice@[9],
            ) && k.content_hash@ == slice@.subrange(10, PRIMARY_KEY_LEN as int)),
    {
        match Self::from_slice(slice) {
            Some(k) => Ok(k),
            None => Err(HubError::Decode),
        }
    }

    /// The encoded bytes of this key, in a fresh owned buffer.
    pub fn as_slice(&self) -> (out: Vec<u8>)
        requires
            self.wf(),
        ensures
            out@ == self.encoding(),
            out@.len() == PRIMARY_KEY_LEN,
    {
        let mut out = self.user_header.as_slice();
        push_u32_be(&mut out, self.timestamp);
        let mut i: usize = 0;
        while i < self.content_hash.len()
            invariant
                self.wf(),
                i <= self.content_hash@.len(),
                out@ =~= self.user_header.encoding() + u32_be_bytes(self.timestamp)
                    + self.content_hash@.subrange(0, i as int),
            decreases self.content_hash@.len() - i,
        {
            out.push(self.content_hash[i]);
            proof {
                assert(self.content_hash@.subrange(0, (i + 1) as int) =~= self.content_hash@
                    .subrange(0, i as int).push(self.content_hash@[i as int]));
                assert(out@ =~= self.user_header.encoding() + u32_be_bytes(self.timestamp)
                    + self.content_hash@.subrange(0, (i + 1) as int));
            }
            i += 1;
        }
        proof {
            assert(self.content_hash@.subrange(0, self.content_hash@.len() as int) =~= self
                .content_hash@);
            assert(out@ =~= self.encoding());
        }
        out
    }

    /// The header prefix of this key.
    pub fn user_header(&self) -> (r: &UserKeyHeader)
        ensures
            *r == self.user_header,
    {
        &self.user_header
    }

    /// The 24-byte timestamp-plus-hash suffix of this key.
    pub fn timestamp_hash(&self) -> (out: Vec<u8>)
        requires
            self.wf(),
        ensures
            out@ == u32_be_bytes(self.timestamp) + self.content_hash@,
            out@.len() == TS_HASH_LENGTH,
    {
        let mut out: Vec<u8> = Vec::new();
        push_u32_be(&mut out, self.timestamp);
        let mut i: usize = 0;
        while i < self.content_hash.len()
            invariant
                self.wf(),
                i <= self.content_hash@.len(),
                out@ =~= u32_be_bytes(self.timestamp) + self.content_hash@.subrange(0, i as int),
            decreases self.content_hash@.len() - i,
        {
            out.push(self.content_hash[i]);
            proof {
                assert(self.content_hash@.subrange(0, (i + 1) as int) =~= self.content_hash@
                    .subrange(0, i as int).push(self.content_hash@[i as int]));
                assert(out@ =~= u32_be_bytes(self.timestamp) + self.content_hash@.subrange(
                    0,
                    (i + 1) as int,
                ));
            }
            i += 1;
        }
        proof {
            assert(self.content_hash@.subrange(0, self.content_hash@.len() as int) =~= self
                .content_hash@);
        }
        out
    }
}

// ---------------------------------------------------------------------------
// MessageActionKey
// ---------------------------------------------------------------------------

/// A 26-byte content-addressed key with no time ordering: header, content
/// hash.
#[derive(Debug)]
pub struct MessageActionKey {
    pub user_header: UserKeyHeader,
    pub content_hash: Vec<u8>,
}

impl MessageActionKey {
    /// The content hash always holds exactly [`HASH_LENGTH`] bytes.
    pub open spec fn wf(self) -> bool {
        self.content_hash@.len() == HASH_LENGTH
    }

    /// The 26 encoded bytes of this key.
    pub open spec fn encoding(self) -> Seq<u8> {
        self.user_header.encoding() + self.content_hash@
    }

    /// Build an action key from a content hash. Rejected with a validation
    /// error exactly when the hash is not [`HASH_LENGTH`] bytes long.
    pub fn new(fid: u32, msg_type: u8, hash: &[u8]) -> (r: Result<Self, HubError>)
        ensures
            hash@.len() != HASH_LENGTH ==> r == Err::<Self, HubError>(HubError::Validation),
            hash@.len() == HASH_LENGTH ==> (r matches Ok(k) && k.wf() && k.user_header.root
                == USER_ROOT_TAG && k.user_header.fid == fid && k.user_header.msg_type == msg_type
                && k.content_hash@ == hash@),
    {
        if hash.len() != HASH_LENGTH {
            return Err(HubError::Validation);
        }
        let content_hash = copy_range(hash, 0, HASH_LENGTH);
        proof {
            assert(hash@.subrange(0, HASH_LENGTH as int) =~= hash@);
        }
        Ok(MessageActionKey { user_header: UserKeyHeader::new(fid, msg_type), content_hash })
    }

    /// Bounds-checked decode: `None` exactly when the buffer is shorter than
    /// the key's fixed size; otherwise the fields read from the first
    /// twenty-six bytes.
    pub fn from_slice(slice: &[u8]) -> (r: Option<Self>)
        ensures
            slice@.len() < ACTION_KEY_LEN ==> r is None,
            slice@.len() >= ACTION_KEY_LEN ==> (r matches Some(k) && k.wf() && k.user_header.root
                == slice@[0] && k.user_header.fid == u32_from_be(
                slice@[1],
                slice@[2],
                slice@[3],
                slice@[4],
            ) && k.user_header.msg_type == slice@[5] && k.content_hash@ == slice@.subrange(
                6,
                ACTION_KEY_LEN as int,
            )),
    {
        if slice.len() < ACTION_KEY_LEN {
            return None;
        }
        Some(
            MessageActionKey {
                user_header: UserKeyHeader {
                    root: slice[0],
                    fid: u32_from_be_exec(slice[1], slice[2], slice[3], slice[4]),
                    msg_type: slice[5],
                },
                content_hash: copy_range(slice, 6, ACTION_KEY_LEN),
            },
        )
    }

    /// Like [`MessageActionKey::from_slice`], with the insufficient-data
    /// failure made explicit.
    pub fn decode(slice: &[u8]) -> (r: Result<Self, HubError>)
        ensures
            slice@.len() < ACTION_KEY_LEN ==> r == Err::<Self, HubError>(HubError::Decode),
            slice@.len() >= ACTION_KEY_LEN ==> (r matches Ok(k) && k.wf() && k.user_header.root
                == slice@[0] && k.user_header.fid == u32_from_be(
                slice@[1],
                slice@[2],
                slice@[3],
                slice@[4],
            ) && k.user_header.msg_type == slice@[5] && k.content_hash@ == slice@.subrange(
                6,
                ACTION_KEY_LEN as int,
            )),
    {
        match Self::from_slice(slice) {
            Some(k) => Ok(k),
            None => Err(HubError::Decode),
        }
    }

    /// The encoded bytes of this key, in a fresh owned buffer.
    pub fn as_slice(&self) -> (out: Vec<u8>)
        requires
            self.wf(),
        ensures
            out@ == self.encoding(),
            out@.len() == ACTION_KEY_LEN,
    {
        let mut out = self.user_header.as_slice();
        let mut i: usize = 0;
        while i < self.content_hash.len()
            invariant
                self.wf(),
                i <= self.content_hash@.len(),
                out@ =~= self.user_header.encoding() + self.content_hash@.subrange(0, i as int),
            decreases self.content_hash@.len() - i,
        {
            out.push(self.content_hash[i]);
            proof {
                assert(self.content_hash@.subrange(0, (i + 1) as int) =~= self.content_hash@
                    .subrange(0, i as int).push(self.content_hash@[i as int]));
                assert(out@ =~= self.user_header.encoding() + self.content_hash@.subrange(
                    0,
                    (i + 1) as int,
                ));
            }
            i += 1;
        }
        proof {
            assert(self.content_hash@.subrange(0, self.content_hash@.len() as int) =~= self
                .content_hash@);
            assert(out@ =~= self.encoding());
        }
        out
    }

    /// The header prefix of this key.
    pub fn user_header(&self) -> (r: &UserKeyHeader)
        ensures
            *r == self.user_header,
    {
        &self.user_header
    }
}

// ---------------------------------------------------------------------------
// Laws of the codec
// ---------------------------------------------------------------------------

/// Round trip: the encoding of an action key decodes back to the fields the
/// key was built from.
pub proof fn lemma_action_key_round_trip(k: MessageActionKey)
    requires
        k.wf(),
    ensures
        k.encoding().len() == ACTION_KEY_LEN,
        k.encoding()[0] == k.user_header.root,
        u32_from_be(k.encoding()[1], k.encoding()[2], k.encoding()[3], k.encoding()[4])
            == k.user_header.fid,
        k.encoding()[5] == k.user_header.msg_type,
        k.encoding().subrange(USER_KEY_HEADER_LEN as int, ACTION_KEY_LEN as int)
            == k.content_hash@,
{
    lemma_u32_be_round_trip(k.user_header.fid);
    assert(k.encoding().subrange(USER_KEY_HEADER_LEN as int, ACTION_KEY_LEN as int) =~= k
        .content_hash@);
}

/// Round trip: the encoding of a primary key decodes back to the fields the
/// key was built from.
pub proof fn lemma_primary_key_round_trip(k: MessagePrimaryKey)
    requires
        k.wf(),
    ensures
        k.encoding().len() == PRIMARY_KEY_LEN,
        k.encoding()[0] == k.user_header.root,
        u32_from_be(k.encoding()[1], k.encoding()[2], k.encoding()[3], k.encoding()[4])
            == k.user_header.fid,
        k.encoding()[5] == k.user_header.msg_type,
        u32_from_be(k.encoding()[6], k.encoding()[7], k.encoding()[8], k.encoding()[9])
            == k.timestamp,
        k.encoding().subrange(10, PRIMARY_KEY_LEN as int) == k.content_hash@,
{
    lemma_u32_be_round_trip(k.user_header.fid);
    lemma_u32_be_round_trip(k.timestamp);
    assert(k.encoding().subrange(10, PRIMARY_KEY_LEN as int) =~= k.content_hash@);
}

/// Order preservation: with equal root and message type, the key of the
/// smaller fid encodes byte-lexicographically below the other, whatever the
/// two hashes hold.
pub proof fn lemma_action_key_fid_order(k1: MessageActionKey, k2: MessageActionKey)
    requires
        k1.user_header.root == k2.user_header.root,
        k1.user_header.msg_type == k2.user_header.msg_type,
        k1.user_header.fid < k2.user_header.fid,
    ensures
        lex_less(k1.encoding(), k2.encoding()),
{
    let prefix = seq![k1.user_header.root];
    let tail1 = seq![k1.user_header.msg_type] + k1.content_hash@;
    let tail2 = seq![k2.user_header.msg_type] + k2.content_hash@;
    assert(k1.encoding() =~= prefix + u32_be_bytes(k1.user_header.fid) + tail1);
    assert(k2.encoding() =~= prefix + u32_be_bytes(k2.user_header.fid) + tail2);
    lemma_be_order_lex(prefix, k1.user_header.fid, k2.user_header.fid, tail1, tail2);
}

/// Order preservation: the same, for primary keys.
pub proof fn lemma_primary_key_fid_order(k1: MessagePrimaryKey, k2: MessagePrimaryKey)
    requires
        k1.user_header.root == k2.user_header.root,
        k1.user_header.msg_type == k2.user_header.msg_type,
        k1.user_header.fid < k2.user_header.fid,
    ensures
        lex_less(k1.encoding(), k2.encoding()),
{
    let prefix = seq![k1.user_header.root];
    let tail1 = seq![k1.user_header.msg_type] + u32_be_bytes(k1.timestamp) + k1.content_hash@;
    let tail2 = seq![k2.user_header.msg_type] + u32_be_bytes(k2.timestamp) + k2.content_hash@;
    assert(k1.encoding() =~= prefix + u32_be_bytes(k1.user_header.fid) + tail1);
    assert(k2.encoding() =~= prefix + u32_be_bytes(k2.user_header.fid) + tail2);
    lemma_be_order_lex(prefix, k1.user_header.fid, k2.user_header.fid, tail1, tail2);
}

/// Order preservation: with the same header, the primary key of the smaller
/// timestamp encodes byte-lexicographically below the other, whatever the two
/// hashes hold.
pub proof fn lemma_primary_key_timestamp_order(k1: MessagePrimaryKey, k2: MessagePrimaryKey)
    requires
        k1.user_header == k2.user_header,
        k1.timestamp < k2.timestamp,
    ensures
        lex_less(k1.encoding(), k2.encoding()),
{
    let prefix = k1.user_header.encoding();
    assert(k1.encoding() =~= prefix + u32_be_bytes(k1.timestamp) + k1.content_hash@);
    assert(k2.encoding() =~= prefix + u32_be_bytes(k2.timestamp) + k2.content_hash@);
    lemma_be_order_lex(prefix, k1.timestamp, k2.timestamp, k1.content_hash@, k2.content_hash@);
}

} // verus!
