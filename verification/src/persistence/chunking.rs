//! Streaming a snapshot out in bounded chunks.
//!
//! A snapshot is, in order: the 64-byte file header, the vector data (each
//! single-precision value as its 4-byte little-endian bit pattern), the HNSW
//! nodes (16 bytes each), the neighbour pool, the deletion bitmap (one bit
//! per vector, least significant bit first) and the metadata section. The
//! iterator hands it out in chunks of at most `chunk_size` bytes (at least 64,
//! so the header fits in the first chunk); a chunk never splits a vector
//! value or a node.

use super::header::{FileHeader, MetadataSectionHeader};
use super::Flags;
use crate::bits::{pack_byte, packed_bits};
use crate::checksum::{crc32_hash, crc32_of};
use crate::le::{append_u32s_le, le32s, lemma_le32s_concat, lemma_le32s_len};
use vstd::prelude::*;

verus! {

/// The smallest chunk size (the size of the file header).
pub const MIN_CHUNK_SIZE: usize = 64;

/// Where the iterator stands in the snapshot.
#[derive(Clone, Copy, Debug, PartialEq, Eq, Structural)]
pub enum SerializationState {
    /// Before the file header.
    Header,
    /// Inside the vector data.
    VectorData,
    /// Inside the HNSW nodes.
    IndexNodes,
    /// Inside the neighbour pool.
    IndexNeighbors,
    /// Inside the deletion bitmap.
    Tombstones,
    /// Inside the metadata section.
    MetadataSection,
    /// After the end.
    Done,
}

/// Yields a snapshot in chunks.
pub struct ChunkIter {
    chunk_size: usize,
    state: SerializationState,
    header_bytes: Vec<u8>,
    vectors: Vec<u32>,
    nodes: Vec<u8>,
    neighbors: Vec<u8>,
    deleted: Vec<bool>,
    metadata_section: Vec<u8>,
    vector_data_offset: usize,
    node_index: usize,
    neighbor_offset: usize,
    tombstone_offset: usize,
    metadata_section_offset: usize,
}

/// The bytes of a snapshot made of the given parts.
pub open spec fn snapshot_stream(
    header: Seq<u8>,
    vectors: Seq<u32>,
    nodes: Seq<u8>,
    neighbors: Seq<u8>,
    deleted: Seq<bool>,
    metadata: Seq<u8>,
) -> Seq<u8> {
    header + le32s(vectors) + nodes + neighbors + packed_bits(deleted) + metadata
}

/// Whether a chunk may end at stream position `p`: never inside the header,
/// inside a 4-byte vector value or inside a 16-byte node.
pub open spec fn chunk_boundary(it: ChunkIter, p: int) -> bool {
    ||| p == 0
    ||| (64 <= p <= it.vectors_end() && (p - 64) % 4 == 0)
    ||| (it.vectors_end() <= p <= it.nodes_end() && (p - it.vectors_end()) % 16 == 0)
    ||| it.nodes_end() <= p
}

/// The size of the smallest piece a chunk can take at stream position `p`:
/// the whole header at the start, a 4-byte value inside the vector data, a
/// 16-byte node inside the nodes, and one byte after them.
pub open spec fn piece_len(it: ChunkIter, p: int) -> int {
    if p < 64 {
        64 - p
    } else if p < it.vectors_end() {
        4
    } else if p < it.nodes_end() {
        16
    } else {
        1
    }
}

impl ChunkIter {
    /// The whole snapshot.
    pub closed spec fn stream(&self) -> Seq<u8> {
        snapshot_stream(
            self.header_bytes@,
            self.vectors@,
            self.nodes@,
            self.neighbors@,
            self.deleted@,
            self.metadata_section@,
        )
    }

    /// The largest chunk handed out.
    pub closed spec fn max_chunk(&self) -> usize {
        self.chunk_size
    }

    /// Where the vector data ends in the stream (it starts after the
    /// 64-byte header).
    pub closed spec fn vectors_end(&self) -> int {
        64 + 4 * self.vectors@.len() as int
    }

    /// Where the node data ends in the stream (it starts at `vectors_end`).
    pub closed spec fn nodes_end(&self) -> int {
        self.vectors_end() + self.nodes@.len()
    }

    spec fn s3(&self) -> int {
        self.nodes_end() + self.neighbors@.len()
    }

    spec fn s4(&self) -> int {
        self.s3() + packed_bits(self.deleted@).len()
    }

    /// The number of bytes handed out so far.
    pub closed spec fn position(&self) -> int {
        match self.state {
            SerializationState::Header => 0,
            SerializationState::VectorData => 64 + 4 * self.vector_data_offset,
            SerializationState::IndexNodes => self.vectors_end() + 16 * self.node_index,
            SerializationState::IndexNeighbors => self.nodes_end() + self.neighbor_offset,
            SerializationState::Tombstones => self.s3() + self.tombstone_offset,
            SerializationState::MetadataSection => self.s4() + self.metadata_section_offset,
            SerializationState::Done => self.stream().len() as int,
        }
    }

    /// Whether the iterator's state is consistent.
    pub closed spec fn wf(&self) -> bool {
        &&& self.chunk_size >= MIN_CHUNK_SIZE
        &&& self.header_bytes@.len() == 64
        &&& self.nodes@.len() % 16 == 0
        &&& self.vector_data_offset <= self.vectors@.len()
        &&& 16 * self.node_index <= self.nodes@.len()
        &&& self.neighbor_offset <= self.neighbors@.len()
        &&& self.tombstone_offset <= packed_bits(self.deleted@).len()
        &&& self.metadata_section_offset <= self.metadata_section@.len()
        &&& self.stream().len() <= usize::MAX
        &&& (self.rank() == 6 ==> self.vector_data_offset == 0)
        &&& (self.rank() <= 4 ==> self.vector_data_offset == self.vectors@.len())
        &&& (self.rank() >= 5 ==> self.node_index == 0)
        &&& (self.rank() <= 3 ==> 16 * self.node_index == self.nodes@.len())
        &&& (self.rank() >= 4 ==> self.neighbor_offset == 0)
        &&& (self.rank() <= 2 ==> self.neighbor_offset == self.neighbors@.len())
        &&& (self.rank() >= 3 ==> self.tombstone_offset == 0)
        &&& (self.rank() <= 1 ==> self.tombstone_offset == packed_bits(self.deleted@).len())
        &&& (self.rank() >= 2 ==> self.metadata_section_offset == 0)
        &&& (self.rank() == 0 ==> self.metadata_section_offset == self.metadata_section@.len())
    }

    /// Creates an iterator over the snapshot made of the given parts; chunk
    /// sizes below 64 are raised to 64.
    pub fn new(
        header: Vec<u8>,
        vectors: Vec<u32>,
        nodes: Vec<u8>,
        neighbors: Vec<u8>,
        deleted: Vec<bool>,
        metadata_section: Vec<u8>,
        chunk_size: usize,
    ) -> (it: Self)
        requires
            header@.len() == 64,
            nodes@.len() % 16 == 0,
            snapshot_stream(header@, vectors@, nodes@, neighbors@, deleted@, metadata_section@).len()
                <= usize::MAX,
        ensures
            it.wf(),
            it.position() == 0,
            it.stream() == snapshot_stream(
                header@,
                vectors@,
                nodes@,
                neighbors@,
                deleted@,
                metadata_section@,
            ),
            it.max_chunk() == if chunk_size < MIN_CHUNK_SIZE {
                MIN_CHUNK_SIZE
            } else {
                chunk_size
            },
            it.vectors_end() == 64 + 4 * vectors@.len(),
            it.nodes_end() == 64 + 4 * vectors@.len() + nodes@.len(),
    {
        let chunk_size = if chunk_size < MIN_CHUNK_SIZE {
            MIN_CHUNK_SIZE
        } else {
            chunk_size
        };
        ChunkIter {
            chunk_size,
            state: SerializationState::Header,
            header_bytes: header,
            vectors,
            nodes,
            neighbors,
            deleted,
            metadata_section,
            vector_data_offset: 0,
            node_index: 0,
            neighbor_offset: 0,
            tombstone_offset: 0,
            metadata_section_offset: 0,
        }
    }

    proof fn lemma_sections(&self)
        requires
            self.wf(),
        ensures
            le32s(self.vectors@).len() == 4 * self.vectors@.len(),
            packed_bits(self.deleted@).len() == (self.deleted@.len() + 7) / 8,
            self.stream().len() == self.s4() + self.metadata_section@.len(),
            self.stream() == self.header_bytes@ + le32s(self.vectors@) + self.nodes@
                + self.neighbors@ + packed_bits(self.deleted@) + self.metadata_section@,
            0 <= self.position() <= self.stream().len(),
    {
        lemma_le32s_len(self.vectors@);
    }

    /// Where things stand in a consistent iterator: the position lies within
    /// the stream, the vector data starts after the 64-byte header and the
    /// node data after the vector data, and chunks are at least 64 bytes.
    pub proof fn lemma_positions(&self)
        requires
            self.wf(),
        ensures
            0 <= self.position() <= self.stream().len(),
            64 <= self.vectors_end() <= self.nodes_end() <= self.stream().len(),
            self.max_chunk() >= 64,
    {
        self.lemma_sections();
    }

    /// How many sections are left to enter (for termination).
    spec fn rank(&self) -> int {
        match self.state {
            SerializationState::Header => 6,
            SerializationState::VectorData => 5,
            SerializationState::IndexNodes => 4,
            SerializationState::IndexNeighbors => 3,
            SerializationState::Tombstones => 2,
            SerializationState::MetadataSection => 1,
            SerializationState::Done => 0,
        }
    }

    /// Moves forward within the current section, appending what it hands out
    /// to `buffer`; returns whether the chunk must end here.
    fn step(&mut self, buffer: &mut Vec<u8>) -> (stop: bool)
        requires
            old(self).wf(),
            old(self).state != SerializationState::Done,
            old(buffer)@.len() < old(self).chunk_size,
            old(self).state == SerializationState::Header ==> old(buffer)@.len() == 0,
        ensures
            final(self).wf(),
            final(self).stream() == old(self).stream(),
            final(self).chunk_size == old(self).chunk_size,
            final(self).vectors_end() == old(self).vectors_end(),
            final(self).nodes_end() == old(self).nodes_end(),
            final(buffer)@ == old(buffer)@ + old(self).stream().subrange(
                old(self).position(),
                final(self).position(),
            ),
            old(self).position() <= final(self).position() <= final(self).stream().len(),
            final(self).position() == old(self).position() ==> final(self).rank() < old(self).rank()
                || stop,
            final(buffer)@.len() <= final(self).chunk_size,
            final(self).rank() <= old(self).rank(),
            final(self).state == SerializationState::Done ==> final(self).position() == final(self).stream().len(),
            stop ==> final(buffer)@.len() > 0,
            stop ==> final(buffer)@.len() + piece_len(*final(self), final(self).position())
                > final(self).chunk_size,
    {
        proof {
            self.lemma_sections();
        }
        let space_left = self.chunk_size - buffer.len();
        let stop = match self.state {
            SerializationState::Header => self.step_header(buffer),
            SerializationState::VectorData => self.step_vectors(buffer, space_left),
            SerializationState::IndexNodes => self.step_nodes(buffer, space_left),
            SerializationState::IndexNeighbors => self.step_neighbors(buffer, space_left),
            SerializationState::Tombstones => self.step_tombstones(buffer, space_left),
            SerializationState::MetadataSection => self.step_metadata(buffer, space_left),
            SerializationState::Done => true,
        };
        proof {
            self.lemma_sections();
        }
        stop
    }

    #[verifier::spinoff_prover]
    #[verifier::rlimit(40)]
    fn step_header(&mut self, buffer: &mut Vec<u8>) -> (stop: bool)
        requires
            old(self).wf(),
            old(self).state == SerializationState::Header,
            old(buffer)@.len() == 0,
        ensures
            final(self).wf(),
            final(self).stream() == old(self).stream(),
            final(self).chunk_size == old(self).chunk_size,
            final(self).vectors_end() == old(self).vectors_end(),
            final(self).nodes_end() == old(self).nodes_end(),
            final(buffer)@ == old(buffer)@ + old(self).stream().subrange(
                old(self).position(),
                final(self).position(),
            ),
            old(self).position() <= final(self).position(),
            final(self).position() == old(self).position() ==> final(self).rank() < old(self).rank(),
            final(buffer)@.len() <= final(self).chunk_size,
            final(self).rank() <= old(self).rank(),
            final(self).state == SerializationState::Done ==> final(self).position() == final(self).stream().len(),
            !stop,
    {
        proof {
            self.lemma_sections();
        }
        let ghost b0 = buffer@;
        copy_range(buffer, self.header_bytes.as_slice(), 0, 64);
        self.state = SerializationState::VectorData;
        proof {
            assert(self.stream().subrange(0, 64) =~= self.header_bytes@);
            assert(self.header_bytes@.subrange(0, 64) =~= self.header_bytes@);
        }
        false
    }

    #[verifier::spinoff_prover]
    #[verifier::rlimit(40)]
    fn step_neighbors(&mut self, buffer: &mut Vec<u8>, space_left: usize) -> (stop: bool)
        requires
            old(self).wf(),
            old(self).state == SerializationState::IndexNeighbors,
            space_left == old(self).chunk_size - old(buffer)@.len(),
            old(buffer)@.len() < old(self).chunk_size,
        ensures
            final(self).wf(),
            final(self).stream() == old(self).stream(),
            final(self).chunk_size == old(self).chunk_size,
            final(self).vectors_end() == old(self).vectors_end(),
            final(self).nodes_end() == old(self).nodes_end(),
            final(buffer)@ == old(buffer)@ + old(self).stream().subrange(
                old(self).position(),
                final(self).position(),
            ),
            old(self).position() <= final(self).position(),
            final(self).position() == old(self).position() ==> final(self).rank() < old(self).rank(),
            final(buffer)@.len() <= final(self).chunk_size,
            final(self).rank() <= old(self).rank(),
            final(self).state == SerializationState::Done ==> final(self).position() == final(self).stream().len(),
            !stop,
    {
        proof {
            self.lemma_sections();
        }
        let len = self.neighbors.len();
        let remaining = len - self.neighbor_offset;
        if remaining == 0 {
            self.state = SerializationState::Tombstones;
            proof {
                assert(self.stream().subrange(self.position(), self.position()) =~= Seq::<
                    u8,
                >::empty());
            }
            return false;
        }
        let count = if remaining < space_left {
            remaining
        } else {
            space_left
        };
        let a = self.neighbor_offset;
        let b = a + count;
        copy_range(buffer, self.neighbors.as_slice(), a, b);
        self.neighbor_offset = b;
        proof {
            let st = self.stream();
            let pre = self.header_bytes@ + le32s(self.vectors@) + self.nodes@
                + self.neighbors@.subrange(0, a as int);
            let mid = self.neighbors@.subrange(a as int, b as int);
            assert(st =~= pre + mid + (self.neighbors@.subrange(b as int, len as int)
                + packed_bits(self.deleted@) + self.metadata_section@));
            assert(st.subrange(pre.len() as int, (pre.len() + mid.len()) as int) =~= mid);
        }
        if b == len {
            self.state = SerializationState::Tombstones;
        }
        false
    }

    #[verifier::spinoff_prover]
    #[verifier::rlimit(40)]
    fn step_metadata(&mut self, buffer: &mut Vec<u8>, space_left: usize) -> (stop: bool)
        requires
            old(self).wf(),
            old(self).state == SerializationState::MetadataSection,
            space_left == old(self).chunk_size - old(buffer)@.len(),
            old(buffer)@.len() < old(self).chunk_size,
        ensures
            final(self).wf(),
            final(self).stream() == old(self).stream(),
            final(self).chunk_size == old(self).chunk_size,
            final(self).vectors_end() == old(self).vectors_end(),
            final(self).nodes_end() == old(self).nodes_end(),
            final(buffer)@ == old(buffer)@ + old(self).stream().subrange(
                old(self).position(),
                final(self).position(),
            ),
            old(self).position() <= final(self).position(),
            final(self).position() == old(self).position() ==> final(self).rank() < old(self).rank(),
            final(buffer)@.len() <= final(self).chunk_size,
            final(self).rank() <= old(self).rank(),
            final(self).state == SerializationState::Done ==> final(self).position() == final(self).stream().len(),
            !stop,
    {
        proof {
            self.lemma_sections();
        }
        let len = self.metadata_section.len();
        let remaining = len - self.metadata_section_offset;
        if remaining == 0 {
            self.state = SerializationState::Done;
            proof {
                assert(self.stream().subrange(old(self).position(), self.position()) =~= Seq::<
                    u8,
                >::empty());
            }
            return false;
        }
        let count = if remaining < space_left {
            remaining
        } else {
            space_left
        };
        let a = self.metadata_section_offset;
        let b = a + count;
        copy_range(buffer, self.metadata_section.as_slice(), a, b);
        self.metadata_section_offset = b;
        proof {
            let st = self.stream();
            let pre = self.header_bytes@ + le32s(self.vectors@) + self.nodes@
                + self.neighbors@ + packed_bits(self.deleted@)
                + self.metadata_section@.subrange(0, a as int);
            let mid = self.metadata_section@.subrange(a as int, b as int);
            assert(st =~= pre + mid + self.metadata_section@.subrange(b as int, len as int));
            assert(st.subrange(pre.len() as int, (pre.len() + mid.len()) as int) =~= mid);
        }
        if b == len {
            self.state = SerializationState::Done;
        }
        false
    }

    #[verifier::spinoff_prover]
    #[verifier::rlimit(40)]
    fn step_vectors(&mut self, buffer: &mut Vec<u8>, space_left: usize) -> (stop: bool)
        requires
            old(self).wf(),
            old(self).state == SerializationState::VectorData,
            space_left == old(self).chunk_size - old(buffer)@.len(),
            old(buffer)@.len() < old(self).chunk_size,
        ensures
            final(self).wf(),
            final(self).stream() == old(self).stream(),
            final(self).chunk_size == old(self).chunk_size,
            final(self).vectors_end() == old(self).vectors_end(),
            final(self).nodes_end() == old(self).nodes_end(),
            final(buffer)@ == old(buffer)@ + old(self).stream().subrange(
                old(self).position(),
                final(self).position(),
            ),
            old(self).position() <= final(self).position(),
            final(self).position() == old(self).position() ==> final(self).rank() < old(self).rank()
                || stop,
            final(buffer)@.len() <= final(self).chunk_size,
            final(self).rank() <= old(self).rank(),
            final(self).state != SerializationState::Done,
            stop ==> final(buffer)@.len() > 0,
            stop ==> final(buffer)@.len() + piece_len(*final(self), final(self).position())
                > final(self).chunk_size,
    {
        proof {
            self.lemma_sections();
        }
        let len = self.vectors.len();
        let remaining = len - self.vector_data_offset;
        if remaining == 0 {
            self.state = SerializationState::IndexNodes;
            proof {
                assert(self.stream().subrange(old(self).position(), self.position()) =~= Seq::<
                    u8,
                >::empty());
            }
            return false;
        }
        let fit = space_left / 4;
        let count = if remaining < fit {
            remaining
        } else {
            fit
        };
        let a = self.vector_data_offset;
        let b = a + count;
        let part = vstd::slice::slice_subrange(self.vectors.as_slice(), a, b);
        append_u32s_le(buffer, part);
        self.vector_data_offset = b;
        proof {
            let v = self.vectors@;
            assert(v =~= v.subrange(0, a as int) + v.subrange(a as int, b as int) + v.subrange(
                b as int,
                len as int,
            ));
            lemma_le32s_concat(v.subrange(0, a as int), v.subrange(a as int, b as int));
            lemma_le32s_concat(
                v.subrange(0, a as int) + v.subrange(a as int, b as int),
                v.subrange(b as int, len as int),
            );
            lemma_le32s_len(v.subrange(0, a as int));
            lemma_le32s_len(v.subrange(a as int, b as int));
            let st = self.stream();
            let pre = self.header_bytes@ + le32s(v.subrange(0, a as int));
            let mid = le32s(v.subrange(a as int, b as int));
            assert(st =~= pre + mid + (le32s(v.subrange(b as int, len as int)) + self.nodes@
                + self.neighbors@ + packed_bits(self.deleted@) + self.metadata_section@));
            assert(st.subrange(pre.len() as int, (pre.len() + mid.len()) as int) =~= mid);
        }
        if b == len {
            self.state = SerializationState::IndexNodes;
        }
        count == 0 && b != len
    }

    #[verifier::spinoff_prover]
    #[verifier::rlimit(40)]
    fn step_nodes(&mut self, buffer: &mut Vec<u8>, space_left: usize) -> (stop: bool)
        requires
            old(self).wf(),
            old(self).state == SerializationState::IndexNodes,
            space_left == old(self).chunk_size - old(buffer)@.len(),
            old(buffer)@.len() < old(self).chunk_size,
        ensures
            final(self).wf(),
            final(self).stream() == old(self).stream(),
            final(self).chunk_size == old(self).chunk_size,
            final(self).vectors_end() == old(self).vectors_end(),
            final(self).nodes_end() == old(self).nodes_end(),
            final(buffer)@ == old(buffer)@ + old(self).stream().subrange(
                old(self).position(),
                final(self).position(),
            ),
            old(self).position() <= final(self).position(),
            final(self).position() == old(self).position() ==> final(self).rank() < old(self).rank()
                || stop,
            final(buffer)@.len() <= final(self).chunk_size,
            final(self).rank() <= old(self).rank(),
            final(self).state != SerializationState::Done,
            stop ==> final(buffer)@.len() > 0,
            stop ==> final(buffer)@.len() + piece_len(*final(self), final(self).position())
                > final(self).chunk_size,
    {
        proof {
            self.lemma_sections();
        }
        let total_nodes = self.nodes.len() / 16;
        let remaining = total_nodes - self.node_index;
        if remaining == 0 {
            self.state = SerializationState::IndexNeighbors;
            proof {
                assert(self.stream().subrange(old(self).position(), self.position()) =~= Seq::<
                    u8,
                >::empty());
            }
            return false;
        }
        let fit = space_left / 16;
        let count = if remaining < fit {
            remaining
        } else {
            fit
        };
        let a = 16 * self.node_index;
        let b = a + 16 * count;
        copy_range(buffer, self.nodes.as_slice(), a, b);
        self.node_index = self.node_index + count;
        proof {
            let st = self.stream();
            let pre = self.header_bytes@ + le32s(self.vectors@) + self.nodes@.subrange(0, a as int);
            let mid = self.nodes@.subrange(a as int, b as int);
            assert(st =~= pre + mid + (self.nodes@.subrange(b as int, self.nodes@.len() as int)
                + self.neighbors@ + packed_bits(self.deleted@) + self.metadata_section@));
            assert(st.subrange(pre.len() as int, (pre.len() + mid.len()) as int) =~= mid);
        }
        if self.node_index == total_nodes {
            self.state = SerializationState::IndexNeighbors;
        }
        count == 0 && self.node_index != total_nodes
    }

    #[verifier::spinoff_prover]
    #[verifier::rlimit(40)]
    fn step_tombstones(&mut self, buffer: &mut Vec<u8>, space_left: usize) -> (stop: bool)
        requires
            old(self).wf(),
            old(self).state == SerializationState::Tombstones,
            space_left == old(self).chunk_size - old(buffer)@.len(),
            old(buffer)@.len() < old(self).chunk_size,
        ensures
            final(self).wf(),
            final(self).stream() == old(self).stream(),
            final(self).chunk_size == old(self).chunk_size,
            final(self).vectors_end() == old(self).vectors_end(),
            final(self).nodes_end() == old(self).nodes_end(),
            final(buffer)@ == old(buffer)@ + old(self).stream().subrange(
                old(self).position(),
                final(self).position(),
            ),
            old(self).position() <= final(self).position(),
            final(self).position() == old(self).position() ==> final(self).rank() < old(self).rank(),
            final(buffer)@.len() <= final(self).chunk_size,
            final(self).rank() <= old(self).rank(),
            final(self).state != SerializationState::Done,
            !stop,
    {
        proof {
            self.lemma_sections();
        }
        let total_bits = self.deleted.len();
        let total_bytes = total_bits / 8 + if total_bits % 8 == 0 {
            0
        } else {
            1
        };
        let remaining = total_bytes - self.tombstone_offset;
        if remaining == 0 {
            self.state = SerializationState::MetadataSection;
            proof {
                assert(self.stream().subrange(old(self).position(), self.position()) =~= Seq::<
                    u8,
                >::empty());
            }
            return false;
        }
        let count = if remaining < space_left {
            remaining
        } else {
            space_left
        };
        let a = self.tombstone_offset;
        let b = a + count;
        let ghost pb = packed_bits(self.deleted@);
        let ghost bs = buffer@;
        let mut j: usize = a;
        while j < b
            invariant
                a <= j <= b,
                b <= total_bytes,
                total_bytes == pb.len(),
                total_bits == self.deleted@.len(),
                pb == packed_bits(self.deleted@),
                buffer@ == bs + pb.subrange(a as int, j as int),
            decreases b - j,
        {
            let byte = tombstone_byte(self.deleted.as_slice(), j);
            buffer.push(byte);
            j = j + 1;
            proof {
                assert(buffer@ =~= bs + pb.subrange(a as int, j as int));
            }
        }
        self.tombstone_offset = b;
        proof {
            let st = self.stream();
            let pre = self.header_bytes@ + le32s(self.vectors@) + self.nodes@ + self.neighbors@
                + pb.subrange(0, a as int);
            let mid = pb.subrange(a as int, b as int);
            assert(st =~= pre + mid + (pb.subrange(b as int, pb.len() as int)
                + self.metadata_section@));
            assert(st.subrange(pre.len() as int, (pre.len() + mid.len()) as int) =~= mid);
        }
        if b == total_bytes {
            self.state = SerializationState::MetadataSection;
        }
        false
    }

    /// The next chunk: the bytes that follow those handed out so far, at most
    /// `max_chunk()` of them and at least one; `None` once all are out. A
    /// chunk takes every whole piece (header, vector value, node, byte) that
    /// still fits, so it ends at the end of the stream or where the next piece
    /// would not fit.
    pub fn next(&mut self) -> (r: Option<Vec<u8>>)
        requires
            old(self).wf(),
        ensures
            final(self).wf(),
            final(self).stream() == old(self).stream(),
            final(self).max_chunk() == old(self).max_chunk(),
            final(self).vectors_end() == old(self).vectors_end(),
            final(self).nodes_end() == old(self).nodes_end(),
            chunk_boundary(*final(self), final(self).position()),
            0 <= old(self).position() <= final(self).position() <= final(self).stream().len(),
            64 <= final(self).vectors_end() <= final(self).nodes_end() <= final(self).stream().len(),
            match r {
                None => old(self).position() == old(self).stream().len() && final(self).position()
                    == old(self).position(),
                Some(c) => c@ == old(self).stream().subrange(
                    old(self).position(),
                    final(self).position(),
                ) && 0 < c@.len() <= old(self).max_chunk() && (final(self).position()
                    == final(self).stream().len() || c@.len() + piece_len(
                    *final(self),
                    final(self).position(),
                ) > final(self).max_chunk()),
            },
    {
        proof {
            self.lemma_sections();
        }
        let ghost total = self.stream().len() as int;
        let ghost start = self.position();
        if self.state == SerializationState::Done {
            return None;
        }
        let mut buffer: Vec<u8> = Vec::new();
        let mut stop = false;
        proof {
            assert(self.stream().subrange(start, start) =~= Seq::<u8>::empty());
        }
        while !stop && buffer.len() < self.chunk_size && self.state != SerializationState::Done
            invariant
                self.wf(),
                self.stream() == old(self).stream(),
                self.chunk_size == old(self).chunk_size,
                self.vectors_end() == old(self).vectors_end(),
                self.nodes_end() == old(self).nodes_end(),
                total == self.stream().len(),
                0 <= start <= self.position() <= total,
                buffer@ == self.stream().subrange(start, self.position()),
                buffer@.len() <= self.chunk_size,
                self.state == SerializationState::Header ==> buffer@.len() == 0,
                self.state == SerializationState::Done ==> self.position() == total,
                stop ==> buffer@.len() > 0,
                stop ==> buffer@.len() + piece_len(*self, self.position()) > self.chunk_size,
            decreases total - self.position(), self.rank(), if stop { 0int } else { 1int },
        {
            let ghost p0 = self.position();
            let ghost b0 = buffer@;
            proof {
                self.lemma_sections();
            }
            stop = self.step(&mut buffer);
            proof {
                let p1 = self.position();
                let st = self.stream();
                assert(start <= p0 <= p1 <= st.len());
                assert(b0 == st.subrange(start, p0));
                assert(buffer@ == b0 + st.subrange(p0, p1));
                assert(st.subrange(start, p1) =~= st.subrange(start, p0) + st.subrange(p0, p1));
            }
        }
        if buffer.len() == 0 {
            None
        } else {
            Some(buffer)
        }
    }
}

/// The chunks put one after the other.
pub open spec fn joined(chunks: Seq<Seq<u8>>) -> Seq<u8>
    decreases chunks.len(),
{
    if chunks.len() == 0 {
        Seq::empty()
    } else {
        joined(chunks.drop_last()) + chunks.last()
    }
}

/// Whether `chunks` are the pieces of `stream` between successive `cuts`,
/// starting at its beginning: chunk `i` runs from `cuts[i]` to `cuts[i + 1]`.
pub open spec fn cut_into(stream: Seq<u8>, cuts: Seq<int>, chunks: Seq<Seq<u8>>) -> bool {
    &&& cuts.len() == chunks.len() + 1
    &&& cuts[0] == 0
    &&& forall|i: int| 0 <= i < chunks.len() ==> #[trigger] piece_at(stream, cuts, chunks, i)
}

/// Whether chunk `i` is the stream from `cuts[i]` to `cuts[i + 1]`.
pub open spec fn piece_at(stream: Seq<u8>, cuts: Seq<int>, chunks: Seq<Seq<u8>>, i: int) -> bool {
    &&& 0 <= cuts[i] <= cuts[i + 1] <= stream.len()
    &&& chunks[i] == stream.subrange(cuts[i], cuts[i + 1])
}

/// Pieces of a stream cut at successive positions from its start, put one
/// after the other, give the stream up to the last cut.
pub proof fn lemma_joined_prefix(stream: Seq<u8>, cuts: Seq<int>, chunks: Seq<Seq<u8>>)
    requires
        cut_into(stream, cuts, chunks),
    ensures
        joined(chunks) == stream.subrange(0, cuts.last()),
    decreases chunks.len(),
{
    if chunks.len() == 0 {
        assert(stream.subrange(0, 0) =~= Seq::<u8>::empty());
    } else {
        let n = chunks.len() - 1;
        let cs = chunks.drop_last();
        let ks = cuts.drop_last();
        assert forall|i: int| 0 <= i < cs.len() implies #[trigger] piece_at(stream, ks, cs, i) by {
            assert(piece_at(stream, cuts, chunks, i));
            assert(cs[i] == chunks[i]);
            assert(ks[i] == cuts[i]);
            assert(ks[i + 1] == cuts[i + 1]);
        }
        assert(ks.len() == cs.len() + 1);
        assert(ks[0] == 0);
        lemma_joined_prefix(stream, ks, cs);
        assert(piece_at(stream, cuts, chunks, n));
        assert(stream.subrange(0, cuts[n + 1]) =~= stream.subrange(0, cuts[n]) + stream.subrange(
            cuts[n],
            cuts[n + 1],
        ));
    }
}

/// The chunks of a complete run put together are the snapshot, whatever the
/// chunk size: each call of `next` hands out the stream from where it stood to
/// where it moves, starting at 0, and a run ends (`None`) at the end of the
/// stream, which `export_chunked` fixes from the parts alone. So two complete
/// runs over the same stream, with any two chunk sizes, give the same bytes.
pub proof fn lemma_chunks_rebuild_stream(
    stream: Seq<u8>,
    cuts_a: Seq<int>,
    chunks_a: Seq<Seq<u8>>,
    cuts_b: Seq<int>,
    chunks_b: Seq<Seq<u8>>,
)
    requires
        cut_into(stream, cuts_a, chunks_a),
        cuts_a.last() == stream.len(),
        cut_into(stream, cuts_b, chunks_b),
        cuts_b.last() == stream.len(),
    ensures
        joined(chunks_a) == stream,
        joined(chunks_a) == joined(chunks_b),
{
    lemma_joined_prefix(stream, cuts_a, chunks_a);
    lemma_joined_prefix(stream, cuts_b, chunks_b);
    assert(stream.subrange(0, stream.len() as int) =~= stream);
}

/// Appends `src[a..b]` to `buf`.
fn copy_range(buf: &mut Vec<u8>, src: &[u8], a: usize, b: usize)
    requires
        a <= b <= src@.len(),
    ensures
        final(buf)@ == old(buf)@ + src@.subrange(a as int, b as int),
{
    let ghost start = buf@;
    let mut k: usize = a;
    while k < b
        invariant
            a <= k <= b,
            b <= src@.len(),
            buf@ == start + src@.subrange(a as int, k as int),
        decreases b - k,
    {
        buf.push(src[k]);
        k = k + 1;
        proof {
            assert(buf@ =~= start + src@.subrange(a as int, k as int));
        }
    }
}

/// Byte `j` of the deletion bitmap.
fn tombstone_byte(deleted: &[bool], j: usize) -> (byte: u8)
    requires
        j < packed_bits(deleted@).len(),
    ensures
        byte == packed_bits(deleted@)[j as int],
{
    let n = deleted.len();
    let mut byte: u8 = 0;
    let mut k: usize = 0;
    while k < 8
        invariant
            k <= 8,
            n == deleted@.len(),
            j < (n + 7) / 8,
            byte == pack_byte(deleted@, 8 * j, k as int),
        decreases 8 - k,
    {
        let pos = 8 * j + k;
        if pos < n && deleted[pos] {
            byte = byte | (1u8 << (k as u8));
        }
        k = k + 1;
    }
    byte
}

} // verus!
