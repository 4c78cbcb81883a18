//! The binary form of a node pool: an eight-byte little-endian count
//! followed by one 48-byte record per node, with nothing before, between
//! or after.
//!
//! A record holds the node's eight child references and then the four
//! words of its payload, each as four bytes, least significant first.

use vstd::prelude::*;

verus! {

/// The number of bytes of the count that opens a pool's binary form.
pub const HEADER_BYTES: usize = 8;

/// The number of bytes of one node record.
pub const NODE_BYTES: usize = 48;

/// One node of the spatial structure: eight child references, each an
/// index into the pool or a sentinel, and a payload of four
/// single-precision numbers held as bit patterns.
#[derive(Clone, Copy, Debug, PartialEq, Eq)]
pub struct Node {
    pub children: [i32; 8],
    pub yuv: [u32; 4],
}

/// A borrowed view of a node array. The view never owns the nodes; `None`
/// stands for a pool that is absent.
#[derive(Clone, Copy, Debug)]
pub struct NodePool<'a> {
    pub nodes: Option<&'a [Node]>,
}

/// Why a pool could not be written or read.
#[derive(Clone, Copy, Debug, PartialEq, Eq, Structural)]
pub enum CodecError {
    /// The pool to write is absent or holds no node.
    EmptyPool,
    /// The bytes end before the count or before the last declared node.
    CorruptFile,
}

/// Byte `j` of a word, least significant first.
pub open spec fn word_byte(w: u32, j: int) -> u8 {
    if j == 0 {
        (w % 256) as u8
    } else if j == 1 {
        (w / 256 % 256) as u8
    } else if j == 2 {
        (w / 65536 % 256) as u8
    } else {
        (w / 16777216 % 256) as u8
    }
}

/// The word whose four bytes stand at offset `off` of `bytes`.
pub open spec fn word_at(bytes: Seq<u8>, off: int) -> u32 {
    (bytes[off] + 256 * bytes[off + 1] + 65536 * bytes[off + 2] + 16777216 * bytes[off + 3]) as u32
}

/// Word `j` of a node's record: child reference `j` for `j` below 8, then
/// the payload.
pub open spec fn node_word(n: Node, j: int) -> u32 {
    if j < 8 {
        n.children[j] as u32
    } else {
        n.yuv[j - 8]
    }
}

/// Byte `k` of a node's record.
pub open spec fn node_byte(n: Node, k: int) -> u8 {
    word_byte(node_word(n, k / 4), k % 4)
}

/// The 48 bytes of a node's record.
pub open spec fn node_bytes(n: Node) -> Seq<u8> {
    Seq::new(NODE_BYTES as nat, |k: int| node_byte(n, k))
}

/// Byte `j` of the count that opens the binary form of `count` nodes.
pub open spec fn count_byte(count: u64, j: int) -> u8 {
    if j < 4 {
        word_byte((count % 0x1_0000_0000) as u32, j)
    } else {
        word_byte((count / 0x1_0000_0000) as u32, j - 4)
    }
}

/// The count that the eight bytes at offset `off` of `bytes` declare.
pub open spec fn count_at(bytes: Seq<u8>, off: int) -> u64 {
    (word_at(bytes, off) + 0x1_0000_0000 * word_at(bytes, off + 4)) as u64
}

/// The node whose record stands at offset `off` of `bytes`.
pub open spec fn node_at(bytes: Seq<u8>, off: int) -> Node {
    Node {
        children: [
            word_at(bytes, off) as i32,
            word_at(bytes, off + 4) as i32,
            word_at(bytes, off + 8) as i32,
            word_at(bytes, off + 12) as i32,
            word_at(bytes, off + 16) as i32,
            word_at(bytes, off + 20) as i32,
            word_at(bytes, off + 24) as i32,
            word_at(bytes, off + 28) as i32,
        ],
        yuv: [
            word_at(bytes, off + 32),
            word_at(bytes, off + 36),
            word_at(bytes, off + 40),
            word_at(bytes, off + 44),
        ],
    }
}

/// The binary form of a node array.
pub open spec fn encoded(nodes: Seq<Node>) -> Seq<u8> {
    Seq::new(
        HEADER_BYTES as nat + NODE_BYTES as nat * nodes.len(),
        |i: int|
            if i < HEADER_BYTES {
                count_byte(nodes.len() as u64, i)
            } else {
                node_byte(
                    nodes[(i - HEADER_BYTES) / NODE_BYTES as int],
                    (i - HEADER_BYTES) % NODE_BYTES as int,
                )
            },
    )
}

/// Whether `bytes` hold a count and at least as many node records as the
/// count declares.
pub open spec fn complete(bytes: Seq<u8>) -> bool {
    &&& bytes.len() >= HEADER_BYTES
    &&& HEADER_BYTES + NODE_BYTES * count_at(bytes, 0) <= bytes.len()
}

/// The node array that `bytes` hold: as many nodes as the count declares,
/// read from consecutive records.
pub open spec fn decoded(bytes: Seq<u8>) -> Seq<Node> {
    Seq::new(count_at(bytes, 0) as nat, |i: int| node_at(bytes, HEADER_BYTES + NODE_BYTES * i))
}

impl<'a> NodePool<'a> {
    /// The nodes in view: none where the pool is absent.
    pub open spec fn view_nodes(&self) -> Seq<Node> {
        match self.nodes {
            Some(nodes) => nodes@,
            None => Seq::empty(),
        }
    }

    /// Returns the number of nodes in view.
    pub fn count(&self) -> (n: usize)
        ensures
            n == self.view_nodes().len(),
    {
        match self.nodes {
            Some(nodes) => nodes.len(),
            None => 0,
        }
    }
}

/// Appends the four bytes of a word.
fn push_word(out: &mut Vec<u8>, w: u32)
    ensures
        final(out)@ == old(out)@ + Seq::new(4, |j: int| word_byte(w, j)),
{
    out.push((w % 256) as u8);
    out.push((w / 256 % 256) as u8);
    out.push((w / 65536 % 256) as u8);
    out.push((w / 16777216 % 256) as u8);
    assert(out@ =~= old(out)@ + Seq::new(4, |j: int| word_byte(w, j)));
}

/// Appends the record of a node.
fn push_node(out: &mut Vec<u8>, node: &Node)
    ensures
        final(out)@ == old(out)@ + node_bytes(*node),
{
    let mut j: usize = 0;
    while j < 8
        invariant
            j <= 8,
            out@ == old(out)@ + node_bytes(*node).take(4 * j),
        decreases 8 - j,
    {
        push_word(out, #[verifier::truncate] (node.children[j] as u32));
        assert(out@ =~= old(out)@ + node_bytes(*node).take(4 * (j + 1)));
        j += 1;
    }
    let mut k: usize = 0;
    while k < 4
        invariant
            k <= 4,
            out@ == old(out)@ + node_bytes(*node).take(32 + 4 * k),
        decreases 4 - k,
    {
        push_word(out, node.yuv[k]);
        assert(out@ =~= old(out)@ + node_bytes(*node).take(32 + 4 * (k + 1)));
        k += 1;
    }
    assert(node_bytes(*node).take(48) =~= node_bytes(*node));
}

/// Writes the binary form of a pool. Fails with `EmptyPool`, writing
/// nothing, exactly when the pool is absent or holds no node.
pub fn serialize_node_pool(pool: &NodePool) -> (r: Result<Vec<u8>, CodecError>)
    ensures
        match r {
            Ok(bytes) => pool.view_nodes().len() > 0 && bytes@ == encoded(pool.view_nodes()),
            Err(e) => e == CodecError::EmptyPool && pool.view_nodes().len() == 0,
        },
{
    let nodes: &[Node] = match pool.nodes {
        Some(nodes) => nodes,
        None => {
            return Err(CodecError::EmptyPool);
        },
    };
    let count = nodes.len();
    if count == 0 {
        return Err(CodecError::EmptyPool);
    }
    let declared = count as u64;
    let mut out: Vec<u8> = Vec::new();
    push_word(&mut out, (declared % 0x1_0000_0000) as u32);
    push_word(&mut out, (declared / 0x1_0000_0000) as u32);
    assert(out@ =~= encoded(nodes@).take(8));
    let mut i: usize = 0;
    while i < count
        invariant
            i <= count,
            count == nodes@.len(),
            out@ == encoded(nodes@).take(8 + 48 * i),
        decreases count - i,
    {
        push_node(&mut out, &nodes[i]);
        assert(out@ =~= encoded(nodes@).take(8 + 48 * (i + 1)));
        i += 1;
    }
    assert(encoded(nodes@).take(8 + 48 * count) =~= encoded(nodes@));
    Ok(out)
}

/// Reads the word at offset `off`.
fn read_word(bytes: &[u8], off: usize) -> (w: u32)
    requires
        off + 4 <= bytes@.len(),
    ensures
        w == word_at(bytes@, off as int),
{
    let b0 = bytes[off] as u32;
    let b1 = bytes[off + 1] as u32;
    let b2 = bytes[off + 2] as u32;
    let b3 = bytes[off + 3] as u32;
    b0 + 256 * b1 + 65536 * b2 + 16777216 * b3
}

/// Reads the node record at offset `off`.
fn read_node(bytes: &[u8], off: usize) -> (n: Node)
    requires
        off + 48 <= bytes@.len(),
    ensures
        n == node_at(bytes@, off as int),
{
    let len = bytes.len();
    assert(off + 48 <= len);
    let c0 = #[verifier::truncate] (read_word(bytes, off) as i32);
    let c1 = #[verifier::truncate] (read_word(bytes, off + 4) as i32);
    let c2 = #[verifier::truncate] (read_word(bytes, off + 8) as i32);
    let c3 = #[verifier::truncate] (read_word(bytes, off + 12) as i32);
    let c4 = #[verifier::truncate] (read_word(bytes, off + 16) as i32);
    let c5 = #[verifier::truncate] (read_word(bytes, off + 20) as i32);
    let c6 = #[verifier::truncate] (read_word(bytes, off + 24) as i32);
    let c7 = #[verifier::truncate] (read_word(bytes, off + 28) as i32);
    let y0 = read_word(bytes, off + 32);
    let y1 = read_word(bytes, off + 36);
    let y2 = read_word(bytes, off + 40);
    let y3 = read_word(bytes, off + 44);
    Node { children: [c0, c1, c2, c3, c4, c5, c6, c7], yuv: [y0, y1, y2, y3] }
}

/// Reads a node array from its binary form. Fails with `CorruptFile`,
/// returning no node, exactly when the bytes end before the count or
/// before the last node that the count declares; bytes after the last
/// declared node are ignored.
pub fn deserialize_node_pool(bytes: &[u8]) -> (r: Result<Vec<Node>, CodecError>)
    ensures
        match r {
            Ok(nodes) => complete(bytes@) && nodes@ == decoded(bytes@),
            Err(e) => e == CodecError::CorruptFile && !complete(bytes@),
        },
{
    let len = bytes.len();
    if len < 8 {
        return Err(CodecError::CorruptFile);
    }
    let low = read_word(bytes, 0);
    let high = read_word(bytes, 4);
    let declared: u64 = low as u64 + 0x1_0000_0000u64 * (high as u64);
    let room = (len - 8) / 48;
    if declared > room as u64 {
        return Err(CodecError::CorruptFile);
    }
    let count = declared as usize;
    let mut nodes: Vec<Node> = Vec::new();
    let mut i: usize = 0;
    while i < count
        invariant
            i <= count,
            len == bytes@.len(),
            count == count_at(bytes@, 0),
            8 + 48 * count <= len,
            nodes@ == decoded(bytes@).take(i as int),
        decreases count - i,
    {
        let node = read_node(bytes, 8 + 48 * i);
        nodes.push(node);
        assert(nodes@ =~= decoded(bytes@).take(i + 1));
        i += 1;
    }
    assert(decoded(bytes@).take(count as int) =~= decoded(bytes@));
    Ok(nodes)
}

/// Reads the node array that a viewer is to show. Fails with
/// `CorruptFile` when the bytes are incomplete and with `EmptyPool` when
/// they are complete but declare no node.
pub fn load_node_pool(bytes: &[u8]) -> (r: Result<Vec<Node>, CodecError>)
    ensures
        match r {
            Ok(nodes) => complete(bytes@) && nodes@ == decoded(bytes@) && nodes@.len() > 0,
            Err(e) => if complete(bytes@) {
                e == CodecError::EmptyPool && count_at(bytes@, 0) == 0
            } else {
                e == CodecError::CorruptFile
            },
        },
{
    match deserialize_node_pool(bytes) {
        Ok(nodes) => {
            if nodes.len() == 0 {
                Err(CodecError::EmptyPool)
            } else {
                Ok(nodes)
            }
        },
        Err(e) => Err(e),
    }
}

/// A word is read back from its four bytes.
pub proof fn lemma_word_round_trip(bytes: Seq<u8>, off: int, w: u32)
    requires
        0 <= off,
        off + 4 <= bytes.len(),
        forall|j: int| 0 <= j < 4 ==> bytes[off + j] == word_byte(w, j),
    ensures
        word_at(bytes, off) == w,
{
    assert(bytes[off + 0] == word_byte(w, 0));
    assert(bytes[off + 1] == word_byte(w, 1));
    assert(bytes[off + 2] == word_byte(w, 2));
    assert(bytes[off + 3] == word_byte(w, 3));
}

/// Word `j` of node `i` is read back from the binary form.
pub proof fn lemma_encoded_word(nodes: Seq<Node>, i: int, j: int)
    requires
        0 <= i < nodes.len(),
        0 <= j < 12,
    ensures
        word_at(encoded(nodes), 8 + 48 * i + 4 * j) == node_word(nodes[i], j),
{
    let bytes = encoded(nodes);
    let off = 8 + 48 * i + 4 * j;
    assert forall|b: int| 0 <= b < 4 implies bytes[off + b] == word_byte(node_word(nodes[i], j), b) by {
        assert((off + b - 8) / 48 == i);
        assert((off + b - 8) % 48 == 4 * j + b);
        assert((4 * j + b) / 4 == j);
        assert((4 * j + b) % 4 == b);
    }
    lemma_word_round_trip(bytes, off, node_word(nodes[i], j));
}

/// The count is read back from the binary form.
pub proof fn lemma_count_round_trip(nodes: Seq<Node>)
    requires
        nodes.len() <= u64::MAX,
    ensures
        count_at(encoded(nodes), 0) == nodes.len(),
{
    let bytes = encoded(nodes);
    let count = nodes.len() as u64;
    lemma_word_round_trip(bytes, 0, (count % 0x1_0000_0000) as u32);
    lemma_word_round_trip(bytes, 4, (count / 0x1_0000_0000) as u32);
}

/// A child reference survives the passage through a word.
pub proof fn lemma_child_round_trip(c: i32)
    ensures
        (c as u32) as i32 == c,
{
    assert((c as u32) as i32 == c) by (bit_vector);
}

/// Bytes whose twelve words at `off` are the words of `node` hold the
/// record of `node` at `off`.
pub proof fn lemma_node_from_words(bytes: Seq<u8>, off: int, node: Node)
    requires
        forall|j: int| 0 <= j < 12 ==> word_at(bytes, off + 4 * j) == node_word(node, j),
    ensures
        node_at(bytes, off) == node,
{
    let got = node_at(bytes, off);
    assert forall|j: int| 0 <= j < 8 implies got.children[j] == node.children[j] by {
        assert(word_at(bytes, off + 4 * j) == node_word(node, j));
        lemma_child_round_trip(node.children[j]);
    }
    assert forall|j: int| 0 <= j < 4 implies got.yuv[j] == node.yuv[j] by {
        assert(word_at(bytes, off + 4 * (j + 8)) == node_word(node, j + 8));
    }
    assert(got.children =~= node.children);
    assert(got.yuv =~= node.yuv);
}

/// Node `i` is read back from the binary form.
pub proof fn lemma_node_round_trip(nodes: Seq<Node>, i: int)
    requires
        0 <= i < nodes.len(),
    ensures
        node_at(encoded(nodes), 8 + 48 * i) == nodes[i],
{
    let bytes = encoded(nodes);
    assert forall|j: int| 0 <= j < 12 implies word_at(bytes, 8 + 48 * i + 4 * j) == node_word(
        nodes[i],
        j,
    ) by {
        lemma_encoded_word(nodes, i, j);
    }
    lemma_node_from_words(bytes, 8 + 48 * i, nodes[i]);
}

/// Reading the binary form of a node array gives the array back, with its
/// count and every child reference and payload word unchanged.
pub proof fn lemma_round_trip(nodes: Seq<Node>)
    requires
        nodes.len() <= u64::MAX,
    ensures
        complete(encoded(nodes)),
        count_at(encoded(nodes), 0) == nodes.len(),
        decoded(encoded(nodes)) == nodes,
{
    let bytes = encoded(nodes);
    lemma_count_round_trip(nodes);
    assert forall|i: int| 0 <= i < nodes.len() implies decoded(bytes)[i] == nodes[i] by {
        lemma_node_round_trip(nodes, i);
    }
    assert(decoded(bytes) =~= nodes);
}

/// Bytes that end before the last declared node are not complete, however
/// many whole records they hold.
pub proof fn lemma_truncated_is_incomplete(nodes: Seq<Node>, cut: int)
    requires
        nodes.len() <= u64::MAX,
        0 <= cut < encoded(nodes).len(),
        nodes.len() > 0,
    ensures
        !complete(encoded(nodes).take(cut)),
{
    let bytes = encoded(nodes);
    let short = bytes.take(cut);
    if cut >= 8 {
        lemma_round_trip(nodes);
        assert(word_at(short, 0) == word_at(bytes, 0));
        assert(word_at(short, 4) == word_at(bytes, 4));
    }
}

} // verus!
