//! Chunks as they are downloaded.

use crate::api::binary::{check_room, guid_text, has_room, read_guid};
use crate::api::foreign::{inflate, zlib_inflated};
use crate::api::utils::{le_u32, le_u64, read_le, read_le_64};
use vstd::prelude::*;
use vstd::slice::{slice_subrange, slice_to_vec};

verus! {

/// The magic number that opens a downloaded chunk.
pub const CHUNK_MAGIC: u32 = 0xB1FE_3AA2;

/// A downloaded chunk: its header and its data.
#[derive(Default, Debug, Clone, PartialEq)]
pub struct Chunk {
    pub header_version: u32,
    pub header_size: u32,
    pub compressed_size: u32,
    pub guid: String,
    pub hash: u64,
    pub compressed: bool,
    pub sha_hash: Option<Vec<u8>>,
    /// 1 for a rolling hash, 2 for a SHA-1, 3 for both.
    pub hash_type: Option<u8>,
    pub uncompressed_size: Option<u32>,
    pub data: Vec<u8>,
}

/// What a downloaded chunk holds.
pub struct ChunkModel {
    pub header_version: u32,
    pub header_size: u32,
    pub compressed_size: u32,
    pub guid: Seq<char>,
    pub hash: u64,
    pub compressed: bool,
    pub sha_hash: Option<Seq<u8>>,
    pub hash_type: Option<u8>,
    pub uncompressed_size: Option<u32>,
    pub data: Seq<u8>,
}

impl View for Chunk {
    type V = ChunkModel;

    open spec fn view(&self) -> ChunkModel {
        ChunkModel {
            header_version: self.header_version,
            header_size: self.header_size,
            compressed_size: self.compressed_size,
            guid: self.guid@,
            hash: self.hash,
            compressed: self.compressed,
            sha_hash: match self.sha_hash {
                Some(sha) => Some(sha@),
                None => None,
            },
            hash_type: self.hash_type,
            uncompressed_size: self.uncompressed_size,
            data: self.data@,
        }
    }
}

/// Length of the header of a chunk of the given header version: 41 bytes,
/// from version 2 on 21 more for a SHA-1 and the kind of hash, from version
/// 3 on 4 more for the size of the data once unpacked.
pub open spec fn chunk_header_len(version: int) -> int {
    if version >= 3 {
        66
    } else if version >= 2 {
        62
    } else {
        41
    }
}

/// The chunk that a buffer holds: the header fields in their order, then
/// the data, which is everything behind the header, decompressed where the
/// header says that it is a zlib stream. `None` where the buffer does not
/// start with the magic number of a chunk, where the header is cut short,
/// or where the data cannot be decompressed.
pub open spec fn chunk_of(bytes: Seq<u8>) -> Option<ChunkModel> {
    if !has_room(bytes, 0, 41) || le_u32(bytes, 0) != CHUNK_MAGIC {
        None
    } else {
        let version = le_u32(bytes, 4);
        let end = chunk_header_len(version);
        if !has_room(bytes, 0, end) {
            None
        } else {
            let body = bytes.subrange(end, bytes.len() as int);
            let data = if bytes[40] != 0 {
                zlib_inflated(body)
            } else {
                Some(body)
            };
            match data {
                Some(data) => Some(
                    ChunkModel {
                        header_version: version as u32,
                        header_size: le_u32(bytes, 8) as u32,
                        compressed_size: le_u32(bytes, 12) as u32,
                        guid: guid_text(bytes, 16),
                        hash: le_u64(bytes, 32) as u64,
                        compressed: bytes[40] != 0,
                        sha_hash: if version >= 2 {
                            Some(bytes.subrange(41, 61))
                        } else {
                            None
                        },
                        hash_type: if version >= 2 {
                            Some(bytes[61])
                        } else {
                            None
                        },
                        uncompressed_size: if version >= 3 {
                            Some(le_u32(bytes, 62) as u32)
                        } else {
                            None
                        },
                        data,
                    },
                ),
                None => None,
            }
        }
    }
}

impl Chunk {
    /// Reads a downloaded chunk.
    pub fn from_vec(buffer: Vec<u8>) -> (value: Option<Chunk>)
        ensures
            match value {
                Some(chunk) => chunk_of(buffer@) == Some(chunk@),
                None => chunk_of(buffer@) is None,
            },
    {
        let bytes: &[u8] = buffer.as_slice();
        let total: usize = bytes.len();
        if !check_room(bytes, 0, 41) {
            return None;
        }
        let mut position: usize = 0;
        let magic: u32 = read_le(bytes, &mut position);
        if magic != CHUNK_MAGIC {
            return None;
        }
        let header_version: u32 = read_le(bytes, &mut position);
        let header_size: u32 = read_le(bytes, &mut position);
        let compressed_size: u32 = read_le(bytes, &mut position);
        let guid: String = read_guid(bytes, 16);
        position = 32;
        let hash: u64 = read_le_64(bytes, &mut position);
        let compressed: bool = bytes[40] != 0;
        let end: usize = if header_version >= 3 {
            66
        } else if header_version >= 2 {
            62
        } else {
            41
        };
        if !check_room(bytes, 0, end as u64) {
            return None;
        }
        let sha_hash: Option<Vec<u8>> = if header_version >= 2 {
            Some(slice_to_vec(slice_subrange(bytes, 41, 61)))
        } else {
            None
        };
        let hash_type: Option<u8> = if header_version >= 2 {
            Some(bytes[61])
        } else {
            None
        };
        position = 62;
        let uncompressed_size: Option<u32> = if header_version >= 3 {
            Some(read_le(bytes, &mut position))
        } else {
            None
        };
        let body: &[u8] = slice_subrange(bytes, end, total);
        let data: Vec<u8> = if compressed {
            match inflate(body) {
                Some(data) => data,
                None => {
                    return None;
                },
            }
        } else {
            slice_to_vec(body)
        };
        Some(
            Chunk {
                header_version,
                header_size,
                compressed_size,
                guid,
                hash,
                compressed,
                sha_hash,
                hash_type,
                uncompressed_size,
                data,
            },
        )
    }
}

} // verus!
