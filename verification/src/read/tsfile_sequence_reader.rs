//! The sequential scan of the data region of a file: chunk groups, the chunks in them,
//! and the markers between them.

use vstd::prelude::*;

use crate::encoding::encoder::{EncodableValue, ValueView};
use crate::error::{TsFileError, TsFileResult};
use crate::read::reader::page_reader::{copy_value, point_views};
use crate::file::header::{
    chunk_header_step, lemma_chunk_header_roundtrip, chunk_header_bytes, reports, var_string_step,
    ChunkHeader, ChunkHeaderView, Scan, ScanFailure,
};
use crate::file::meta_marker::{
    CHUNK_GROUP_HEADER, CHUNK_HEADER, ONLY_ONE_PAGE_CHUNK_HEADER, ONLY_ONE_PAGE_TIME_CHUNK_HEADER,
    ONLY_ONE_PAGE_VALUE_CHUNK_HEADER, OPERATION_INDEX_RANGE, SEPARATOR, TIME_CHUNK_HEADER,
    VALUE_CHUNK_HEADER,
};
use crate::read::reader::chunk_reader::{chunk_points, has_page_statistics, ChunkReader, ReadFailure};
use crate::utils::byte_reader::{copy_range, ByteReader};
use crate::utils::read_write_for_encoding::{lemma_varint_roundtrip, varint_bytes};
use crate::utils::read_write_io_utils::{be_i32_at, var_length_prefixed};
use vstd::utf8::encode_utf8;
use crate::utils::read_write_io_utils::ReadWriteIOUtils;

verus! {

/// A chunk met during a sequential scan, with its device.
#[derive(Debug, Clone)]
pub struct ChunkInfo {
    /// The device of the chunk.
    pub device_id: String,
    /// The chunk header.
    pub chunk_header: ChunkHeader,
    /// The bytes of the pages.
    pub chunk_data: Vec<u8>,
}

/// The abstract form of a chunk met during a scan.
pub struct ChunkInfoView {
    /// The device.
    pub device: Seq<char>,
    /// The chunk header.
    pub header: ChunkHeaderView,
    /// The bytes of the pages.
    pub data: Seq<u8>,
}

impl ChunkInfo {
    /// The abstract form of the chunk.
    pub open spec fn info_view(&self) -> ChunkInfoView {
        ChunkInfoView {
            device: self.device_id@,
            header: self.chunk_header.header_view(),
            data: self.chunk_data@,
        }
    }
}

/// The abstract forms of `cs`.
pub open spec fn info_views(cs: Seq<ChunkInfo>) -> Seq<ChunkInfoView> {
    cs.map_values(|c: ChunkInfo| c.info_view())
}

/// Whether `m` opens a chunk.
pub open spec fn is_chunk_marker(m: u8) -> bool {
    ||| m == CHUNK_HEADER
    ||| m == ONLY_ONE_PAGE_CHUNK_HEADER
    ||| m == TIME_CHUNK_HEADER
    ||| m == VALUE_CHUNK_HEADER
    ||| m == ONLY_ONE_PAGE_TIME_CHUNK_HEADER
    ||| m == ONLY_ONE_PAGE_VALUE_CHUNK_HEADER
}

/// `prefix` put before the chunks of `r`, or the failure of `r`.
pub open spec fn prepend_chunks(
    prefix: Seq<ChunkInfoView>,
    r: Result<Seq<ChunkInfoView>, ScanFailure>,
) -> Result<Seq<ChunkInfoView>, ScanFailure> {
    match r {
        Ok(rest) => Ok(prefix + rest),
        Err(e) => Err(e),
    }
}

/// What a scan finds at one offset.
pub enum Section {
    /// The end of the scan.
    Stop,
    /// A chunk group of `device`; the scan goes on at `next`.
    Device { device: Seq<char>, next: int },
    /// A chunk; the scan goes on at `next`.
    Chunk { info: ChunkInfoView, next: int },
    /// A section that is passed over; the scan goes on at `next`.
    Passed { next: int },
    /// The bytes at the offset do not read.
    Failed { failure: ScanFailure },
}

/// What a scan of `s` finds at offset `pos`, with chunks belonging to `device`. It stops
/// at `end`, at the end of the bytes, or at a separator. A chunk group marker is followed
/// by the device as a varint-prefixed text; a chunk marker by the rest of a chunk header
/// and the chunk's bytes; an operation index range marker by sixteen bytes that are
/// passed. Any other marker is an error.
#[verifier::opaque]
pub open spec fn next_section(s: Seq<u8>, pos: int, end: int, device: Seq<char>) -> Section {
    if pos < 0 || pos >= end || pos >= s.len() {
        Section::Stop
    } else {
        let m = s[pos];
        let t = s.skip(pos + 1);
        if m == CHUNK_GROUP_HEADER {
            match var_string_step(t) {
                Scan::Done { value: d, len } => Section::Device { device: d, next: pos + 1 + len },
                Scan::Failed { failure } => Section::Failed { failure },
            }
        } else if is_chunk_marker(m) {
            match chunk_header_step(m, t) {
                Scan::Done { value: h, len } => {
                    let q = pos + 1 + len;
                    if s.len() - q < h.data_size {
                        Section::Failed { failure: ScanFailure::Truncated }
                    } else {
                        Section::Chunk {
                            info: ChunkInfoView {
                                device,
                                header: h,
                                data: s.subrange(q, q + h.data_size),
                            },
                            next: q + h.data_size,
                        }
                    }
                },
                Scan::Failed { failure } => Section::Failed { failure },
            }
        } else if m == SEPARATOR {
            Section::Stop
        } else if m == OPERATION_INDEX_RANGE {
            if t.len() < 16 {
                Section::Failed { failure: ScanFailure::Truncated }
            } else {
                Section::Passed { next: pos + 17 }
            }
        } else {
            Section::Failed { failure: ScanFailure::BadMarker { marker: m } }
        }
    }
}

/// The chunks that a scan of `s` from offset `pos` finds, one section after the other,
/// with the device of the chunk group each belongs to.
pub open spec fn chunk_scan(s: Seq<u8>, pos: int, end: int, device: Seq<char>) -> Result<
    Seq<ChunkInfoView>,
    ScanFailure,
>
    decreases s.len() - pos,
{
    match next_section(s, pos, end, device) {
        Section::Stop => Ok(Seq::empty()),
        Section::Device { device: d, next } => if pos < next <= s.len() {
            chunk_scan(s, next, end, d)
        } else {
            Err(ScanFailure::Truncated)
        },
        Section::Chunk { info, next } => if pos < next <= s.len() {
            prepend_chunks(seq![info], chunk_scan(s, next, end, device))
        } else {
            Err(ScanFailure::Truncated)
        },
        Section::Passed { next } => if pos < next <= s.len() {
            chunk_scan(s, next, end, device)
        } else {
            Err(ScanFailure::Truncated)
        },
        Section::Failed { failure } => Err(failure),
    }
}

/// A section that the scan goes on after ends past its offset and within the bytes.
proof fn lemma_next_section_bounds(s: Seq<u8>, pos: int, end: int, device: Seq<char>)
    ensures
        match next_section(s, pos, end, device) {
            Section::Device { next, .. } => pos < next <= s.len(),
            Section::Chunk { next, .. } => pos < next <= s.len(),
            Section::Passed { next } => pos < next <= s.len(),
            _ => true,
        },
{
    reveal(next_section);
    if 0 <= pos < s.len() {
        crate::file::header::lemma_scan_lens(s[pos], s.skip(pos + 1));
    }
}

/// What reading one section gives.
enum Found {
    /// The end of the scan.
    Stop,
    /// A chunk group of this device.
    Device(String),
    /// A chunk.
    Chunk(ChunkInfo),
    /// A section passed over.
    Passed,
}

/// Reads the section at the front of `reader`, which stands at offset `pos` of `s`.
fn read_section(
    reader: &mut ByteReader,
    pos: usize,
    end: u64,
    device: &String,
    Ghost(s): Ghost<Seq<u8>>,
) -> (r: TsFileResult<Found>)
    requires
        pos <= s.len(),
        old(reader).rest() == s.skip(pos as int),
    ensures
        match next_section(s, pos as int, end as int, device@) {
            Section::Stop => r matches Ok(Found::Stop),
            Section::Device { device: d, next } => {
                &&& r matches Ok(Found::Device(dv)) && dv@ == d
                &&& final(reader).rest() == s.skip(next)
            },
            Section::Chunk { info, next } => {
                &&& r matches Ok(Found::Chunk(c)) && c.info_view() == info && c.chunk_header.num_of_pages == 0
                &&& final(reader).rest() == s.skip(next)
            },
            Section::Passed { next } => {
                &&& r matches Ok(Found::Passed)
                &&& final(reader).rest() == s.skip(next)
            },
            Section::Failed { failure } => r matches Err(e) && reports(e, failure),
        },
{
    proof {
        reveal(next_section);
    }
    if pos as u64 >= end {
        return Ok(Found::Stop);
    }
    let marker = match reader.read_u8() {
        Ok(m) => m,
        Err(_) => {
            return Ok(Found::Stop);
        },
    };
    let ghost p = pos as int;
    let ghost t = s.skip(p + 1);
    proof {
        assert(s.skip(p)[0] == s[p]);
        assert(reader.rest() =~= t);
        crate::file::header::lemma_scan_lens(marker, t);
    }
    if marker == CHUNK_GROUP_HEADER {
        let d = ReadWriteIOUtils::read_var_int_string(reader)?;
        proof {
            let l = var_string_step(t)->len;
            assert(reader.rest() =~= s.skip(p + 1 + l));
        }
        Ok(Found::Device(d))
    } else if opens_chunk(marker) {
        let header = ChunkHeader::deserialize(reader, marker)?;
        let ghost q = p + 1 + chunk_header_step(marker, t)->len;
        proof {
            assert(reader.rest() =~= s.skip(q));
        }
        let chunk_data = ReadWriteIOUtils::read_bytes(reader, header.data_size as usize)?;
        proof {
            assert(chunk_data@ =~= s.subrange(q, q + header.data_size));
            assert(reader.rest() =~= s.skip(q + header.data_size));
        }
        Ok(Found::Chunk(ChunkInfo { device_id: device.clone(), chunk_header: header, chunk_data }))
    } else if marker == SEPARATOR {
        Ok(Found::Stop)
    } else if marker == OPERATION_INDEX_RANGE {
        ReadWriteIOUtils::skip(reader, 16)?;
        proof {
            assert(reader.rest() =~= s.skip(p + 17));
        }
        Ok(Found::Passed)
    } else {
        Err(TsFileError::InvalidMarker(marker))
    }
}

/// Whether the marker `m` opens a chunk.
fn opens_chunk(m: u8) -> (b: bool)
    ensures
        b == is_chunk_marker(m),
{
    m == CHUNK_HEADER || m == ONLY_ONE_PAGE_CHUNK_HEADER || m == TIME_CHUNK_HEADER || m
        == VALUE_CHUNK_HEADER || m == ONLY_ONE_PAGE_TIME_CHUNK_HEADER || m
        == ONLY_ONE_PAGE_VALUE_CHUNK_HEADER
}

/// Scans the file `data` from offset `start`, before which lie the magic string and the
/// version, up to `meta_offset`, where the index begins, and returns its chunks in order,
/// each with the device of the chunk group it belongs to. The devices start empty. The
/// caller takes `meta_offset` from the file's metadata, which `read_file_metadata_region`
/// locates.
pub fn read_all_chunks(data: Vec<u8>, start: usize, meta_offset: u64) -> (r: TsFileResult<
    Vec<ChunkInfo>,
>)
    ensures
        match chunk_scan(data@, start as int, meta_offset as int, Seq::<char>::empty()) {
            Ok(cs) => r matches Ok(v) && info_views(v@) == cs && forall|i: int|
                0 <= i < v@.len() ==> (#[trigger] v@[i]).chunk_header.num_of_pages == 0,
            Err(f) => r matches Err(e) && reports(e, f),
        },
{
    let ghost s = data@;
    let len = data.len();
    let mut results: Vec<ChunkInfo> = Vec::new();
    if start >= len {
        proof {
            reveal(next_section);
            assert(info_views(results@) =~= Seq::<ChunkInfoView>::empty());
        }
        return Ok(results);
    }
    let mut reader = ByteReader::new(data);
    let _ = ReadWriteIOUtils::skip(&mut reader, start);
    assert(reader.rest().len() == s.len() - start);
    let mut current_device = String::new();
    proof {
        assert(results@.len() == 0);
        assert(info_views(results@) =~= Seq::<ChunkInfoView>::empty());
        assert(current_device@ =~= Seq::<char>::empty());
    }
    loop
        invariant_except_break
            chunk_scan(s, start as int, meta_offset as int, Seq::<char>::empty()) == prepend_chunks(
                info_views(results@),
                chunk_scan(s, s.len() - reader.rest().len(), meta_offset as int, current_device@),
            ),
            reader.rest().len() <= s.len(),
            reader.rest() == s.skip(s.len() - reader.rest().len()),
        invariant
            s == data@,
            forall|i: int| 0 <= i < results@.len() ==> (#[trigger] results@[i]).chunk_header.num_of_pages == 0,
            len == s.len(),
        ensures
            chunk_scan(s, start as int, meta_offset as int, Seq::<char>::empty()) == Ok::<
                Seq<ChunkInfoView>,
                ScanFailure,
            >(info_views(results@)),
        decreases reader.rest().len(),
    {
        let pos = len - reader.remaining();
        let ghost p = pos as int;
        proof {
            lemma_next_section_bounds(s, p, meta_offset as int, current_device@);
        }
        let found = match read_section(&mut reader, pos, meta_offset, &current_device, Ghost(s)) {
            Ok(f) => f,
            Err(e) => {
                return Err(e);
            },
        };
        match found {
            Found::Stop => {
                proof {
                    assert(info_views(results@) + Seq::<ChunkInfoView>::empty() =~= info_views(
                        results@,
                    ));
                }
                break;
            },
            Found::Device(d) => {
                current_device = d;
            },
            Found::Chunk(info) => {
                let ghost before = results@;
                let ghost iv = info.info_view();
                results.push(info);
                proof {
                    assert(info_views(results@) =~= info_views(before) + seq![iv]);
                    let next = s.len() - reader.rest().len();
                    match chunk_scan(s, next, meta_offset as int, current_device@) {
                        Ok(tail) => {
                            assert(info_views(before) + (seq![iv] + tail) =~= info_views(results@)
                                + tail);
                        },
                        Err(_) => {},
                    }
                }
            },
            Found::Passed => {},
        }
    }
    Ok(results)
}

/// A chunk group header, the group marker then the device as a varint-prefixed text,
/// makes the scan go on after it with that device.
#[verifier::rlimit(40)]
pub proof fn lemma_scan_group_header(
    a: Seq<u8>,
    device: Seq<char>,
    rest: Seq<u8>,
    end: int,
    current: Seq<char>,
)
    requires
        a.len() < end,
        encode_utf8(device).len() <= i32::MAX,
    ensures
        ({
            let g = seq![CHUNK_GROUP_HEADER] + var_length_prefixed(encode_utf8(device));
            chunk_scan(a + g + rest, a.len() as int, end, current) == chunk_scan(
                a + g + rest,
                (a.len() + g.len()) as int,
                end,
                device,
            )
        }),
{
    reveal(next_section);
    let bytes = encode_utf8(device);
    let g = seq![CHUNK_GROUP_HEADER] + var_length_prefixed(bytes);
    let s = a + g + rest;
    let pos = a.len() as int;
    let t = s.skip(pos + 1);
    assert(s[pos] == CHUNK_GROUP_HEADER);
    assert(t =~= varint_bytes(bytes.len() as i32) + (bytes + rest));
    lemma_varint_roundtrip(bytes.len() as i32, bytes + rest);
    let k = varint_bytes(bytes.len() as i32).len();
    assert(t.subrange(k as int, k + bytes.len() as int) =~= bytes);
    vstd::utf8::encode_utf8_valid_utf8(device);
    vstd::utf8::encode_utf8_decode_utf8(device);
    lemma_next_section_bounds(s, pos, end, current);
}

/// At a chunk, its header then its bytes, the scan finds the chunk and goes on after it.
proof fn lemma_section_chunk(
    a: Seq<u8>,
    header: ChunkHeaderView,
    data: Seq<u8>,
    rest: Seq<u8>,
    end: int,
    device: Seq<char>,
)
    requires
        a.len() < end,
        is_chunk_marker(header.chunk_type),
        encode_utf8(header.measurement_id).len() <= i32::MAX,
        data.len() == header.data_size,
    ensures
        ({
            let h = chunk_header_bytes(
                header.chunk_type,
                header.measurement_id,
                header.data_size,
                header.data_type,
                header.compression_type,
                header.encoding_type,
            );
            next_section(a + h + data + rest, a.len() as int, end, device) == (Section::Chunk {
                info: ChunkInfoView { device, header, data },
                next: (a.len() + h.len() + data.len()) as int,
            })
        }),
{
    reveal(next_section);
    let h = chunk_header_bytes(
        header.chunk_type,
        header.measurement_id,
        header.data_size,
        header.data_type,
        header.compression_type,
        header.encoding_type,
    );
    let s = a + h + data + rest;
    let pos = a.len() as int;
    lemma_chunk_header_roundtrip(
        header.chunk_type,
        header.measurement_id,
        header.data_size,
        header.data_type,
        header.compression_type,
        header.encoding_type,
        data + rest,
    );
    assert(s =~= a + (h + (data + rest)));
    assert(s[pos] == (h + (data + rest))[0]);
    assert(s.skip(pos + 1) =~= (h + (data + rest)).skip(1));
    let q = pos + h.len();
    assert(s.subrange(q, q + data.len()) =~= data);
}

/// A chunk, its header then its bytes, is found by the scan with the device of its
/// group, which then goes on after it.
pub proof fn lemma_scan_chunk(
    a: Seq<u8>,
    header: ChunkHeaderView,
    data: Seq<u8>,
    rest: Seq<u8>,
    end: int,
    device: Seq<char>,
)
    requires
        a.len() < end,
        is_chunk_marker(header.chunk_type),
        encode_utf8(header.measurement_id).len() <= i32::MAX,
        data.len() == header.data_size,
    ensures
        ({
            let h = chunk_header_bytes(
                header.chunk_type,
                header.measurement_id,
                header.data_size,
                header.data_type,
                header.compression_type,
                header.encoding_type,
            );
            let s = a + h + data + rest;
            chunk_scan(s, a.len() as int, end, device) == prepend_chunks(
                seq![ChunkInfoView { device, header, data }],
                chunk_scan(s, (a.len() + h.len() + data.len()) as int, end, device),
            )
        }),
{
    let h = chunk_header_bytes(
        header.chunk_type,
        header.measurement_id,
        header.data_size,
        header.data_type,
        header.compression_type,
        header.encoding_type,
    );
    let s = a + h + data + rest;
    lemma_section_chunk(a, header, data, rest, end, device);
    lemma_next_section_bounds(s, a.len() as int, end, device);
}

/// The magic bytes that open and close a file: `TsFile` in ASCII.
pub open spec fn magic_bytes() -> Seq<u8> {
    seq![84u8, 115u8, 70u8, 105u8, 108u8, 101u8]
}

/// Why the footer of a file does not locate its metadata.
pub enum FooterFailure {
    /// The file is too short to hold the metadata size and the closing magic.
    Truncated,
    /// The metadata size is not positive.
    BadSize,
    /// The file does not end with the magic bytes.
    BadMagic,
    /// The metadata would begin before the data region.
    BadOffset,
}

/// Where the metadata of `file` lies, as its footer says: the file ends with the size of
/// the metadata as a big-endian 32-bit number, then the magic bytes; the metadata comes
/// just before that size, and must begin after the opening magic bytes and version byte.
pub open spec fn metadata_region(file: Seq<u8>) -> Result<(int, int), FooterFailure> {
    let n = file.len() as int;
    if n < 10 {
        Err(FooterFailure::Truncated)
    } else {
        let size = be_i32_at(file.skip(n - 10)) as int;
        if size <= 0 {
            Err(FooterFailure::BadSize)
        } else if file.skip(n - 6) != magic_bytes() {
            Err(FooterFailure::BadMagic)
        } else if n - 10 - size < 7 {
            Err(FooterFailure::BadOffset)
        } else {
            Ok((n - 10 - size, size))
        }
    }
}

/// Locates the metadata of `file` from its footer: its offset and its size. A file too
/// short for a footer is an `Io` error, a size that is not positive or that puts the
/// metadata before the data region an `InvalidFileFormat` error, and a file that does not
/// end with the magic bytes an `InvalidMagicString` error.
pub fn read_file_metadata_region(file: &[u8]) -> (r: TsFileResult<(usize, usize)>)
    ensures
        match metadata_region(file@) {
            Ok((offset, size)) => r == Ok::<(usize, usize), TsFileError>((offset as usize, size as usize)),
            Err(FooterFailure::Truncated) => r matches Err(TsFileError::Io(_)),
            Err(FooterFailure::BadSize) => r matches Err(TsFileError::InvalidFileFormat(_)),
            Err(FooterFailure::BadMagic) => r matches Err(TsFileError::InvalidMagicString),
            Err(FooterFailure::BadOffset) => r matches Err(TsFileError::InvalidFileFormat(_)),
        },
{
    let n = file.len();
    if n < 10 {
        return Err(TsFileError::Io("File too short for a footer".to_string()));
    }
    let size_bytes = copy_range(file, n - 10, n - 6);
    let size = match ReadWriteIOUtils::read_i32_from_slice(size_bytes.as_slice()) {
        Ok((v, _)) => v,
        Err(e) => {
            return Err(e);
        },
    };
    proof {
        let a = file@.skip(n - 10);
        let b = size_bytes@;
        assert(a[0] == b[0] && a[1] == b[1] && a[2] == b[2] && a[3] == b[3]);
        assert(be_i32_at(a) == be_i32_at(b));
    }
    if size <= 0 {
        return Err(TsFileError::InvalidFileFormat("Invalid metadata size".to_string()));
    }
    let magic: [u8; 6] = [84u8, 115u8, 70u8, 105u8, 108u8, 101u8];
    let mut i: usize = 0;
    while i < 6
        invariant
            n == file@.len(),
            n >= 10,
            i <= 6,
            magic@ == magic_bytes(),
            size > 0,
            size == be_i32_at(file@.skip(n - 10)),
            forall|k: int| 0 <= k < i ==> file@[n - 6 + k] == magic_bytes()[k],
        decreases 6 - i,
    {
        if file[n - 6 + i] != magic[i] {
            proof {
                assert(file@.skip(n - 6)[i as int] != magic_bytes()[i as int]);
            }
            return Err(TsFileError::InvalidMagicString);
        }
        i = i + 1;
    }
    assert(file@.skip(n - 6) =~= magic_bytes());
    let size_usize = size as usize;
    if n - 10 < size_usize || n - 10 - size_usize < 7 {
        return Err(TsFileError::InvalidFileFormat("Metadata offset is before the data region".to_string()));
    }
    Ok((n - 10 - size_usize, size_usize))
}

/// A reader of a whole file held in memory, which keeps where the file's metadata lies
/// once it has found it.
pub struct TsFileSequenceReader {
    data: Vec<u8>,
    file_metadata: Option<(usize, usize)>,
}

impl TsFileSequenceReader {
    /// The bytes of the file.
    pub closed spec fn file(&self) -> Seq<u8> {
        self.data@
    }

    /// Where the metadata lies, once found.
    pub closed spec fn kept(&self) -> Option<(usize, usize)> {
        self.file_metadata
    }

    /// Whether what is kept is where the metadata lies.
    pub closed spec fn wf(&self) -> bool {
        self.file_metadata matches Some((offset, size)) ==> metadata_region(self.data@) == Ok::<
            (int, int),
            FooterFailure,
        >((offset as int, size as int))
    }

    /// A reader of the file `data` that has found nothing yet.
    pub fn new(data: Vec<u8>) -> (r: Self)
        ensures
            r.wf(),
            r.file() == data@,
            r.kept() is None,
    {
        TsFileSequenceReader { data, file_metadata: None }
    }

    /// Where the metadata of the file lies, its offset and its size, as its footer says,
    /// with the errors of `read_file_metadata_region`. Once found, it is kept, and later
    /// calls give it without reading the footer again.
    pub fn read_file_metadata(&mut self) -> (r: TsFileResult<(usize, usize)>)
        requires
            old(self).wf(),
        ensures
            final(self).wf(),
            final(self).file() == old(self).file(),
            match metadata_region(old(self).file()) {
                Ok((offset, size)) => r == Ok::<(usize, usize), TsFileError>((offset as usize, size as usize)),
                Err(FooterFailure::Truncated) => r matches Err(TsFileError::Io(_)),
                Err(FooterFailure::BadSize) => r matches Err(TsFileError::InvalidFileFormat(_)),
                Err(FooterFailure::BadMagic) => r matches Err(TsFileError::InvalidMagicString),
                Err(FooterFailure::BadOffset) => r matches Err(TsFileError::InvalidFileFormat(_)),
            },
            old(self).kept() is Some ==> final(self).kept() == old(self).kept(),
            r matches Ok(x) ==> final(self).kept() == Some(x),
            r is Err ==> final(self).kept() == old(self).kept(),
    {
        if let Some((offset, size)) = self.file_metadata {
            return Ok((offset, size));
        }
        let region = read_file_metadata_region(self.data.as_slice());
        if let Ok((offset, size)) = region {
            proof {
                let (o, sz) = metadata_region(self.data@)->Ok_0;
                assert(metadata_region(self.data@) is Ok);
                assert(self.data@.len() == self.data.len());
                assert(0 <= o <= self.data@.len() && 0 <= sz <= self.data@.len());
                assert(offset == o as usize && size == sz as usize);
                assert(offset as int == o && size as int == sz);
            }
            self.file_metadata = Some((offset, size));
        }
        region
    }
}

/// The value of the first point of `column` at time `t`, if any.
pub open spec fn first_at(column: Seq<(i64, ValueView)>, t: i64) -> Option<ValueView>
    decreases column.len(),
{
    if column.len() == 0 {
        None
    } else if column[0].0 == t {
        Some(column[0].1)
    } else {
        first_at(column.drop_first(), t)
    }
}

/// Whether some point of some column is at time `t`.
pub open spec fn has_time(columns: Seq<Seq<(i64, ValueView)>>, t: i64) -> bool {
    exists|j: int, i: int| 0 <= j < columns.len() && 0 <= i < columns[j].len() && #[trigger] columns[j][i].0 == t
}

/// The abstract form of a row's values.
pub open spec fn row_view(values: Seq<Option<EncodableValue>>) -> Seq<Option<ValueView>> {
    values.map_values(|v: Option<EncodableValue>| match v {
        Some(x) => Some(x@),
        None => None,
    })
}

/// The abstract forms of the columns' points.
pub open spec fn columns_view(columns: Seq<Vec<(i64, EncodableValue)>>) -> Seq<Seq<(i64, ValueView)>> {
    columns.map_values(|c: Vec<(i64, EncodableValue)>| point_views(c@))
}

/// The value of the first point of `column` at time `t`, if any.
pub(crate) fn find_at(column: &Vec<(i64, EncodableValue)>, t: i64) -> (r: Option<EncodableValue>)
    ensures
        match first_at(point_views(column@), t) {
            Some(v) => r matches Some(x) && x@ == v,
            None => r is None,
        },
{
    let mut i: usize = 0;
    assert(point_views(column@).skip(0) =~= point_views(column@));
    while i < column.len()
        invariant
            i <= column@.len(),
            first_at(point_views(column@), t) == first_at(point_views(column@).skip(i as int), t),
        decreases column@.len() - i,
    {
        let ghost rest = point_views(column@).skip(i as int);
        assert(rest[0] == (column@[i as int].0, column@[i as int].1@));
        if column[i].0 == t {
            return Some(copy_value(&column[i].1));
        }
        assert(rest.drop_first() =~= point_views(column@).skip(i + 1));
        i = i + 1;
    }
    None
}

/// The points of several columns arranged by time: one row for each time at which a
/// column has a point, in increasing order of time, holding for each column the value of
/// its first point at that time, or nothing.
pub fn align_rows(columns: &Vec<Vec<(i64, EncodableValue)>>) -> (rows: Vec<(i64, Vec<Option<EncodableValue>>)>)
    ensures
        forall|a: int, b: int| 0 <= a < b < rows@.len() ==> rows@[a].0 < rows@[b].0,
        forall|t: i64| has_time(columns_view(columns@), t) <==> exists|r: int| 0 <= r < rows@.len() && #[trigger] rows@[r].0 == t,
        forall|r: int|
            0 <= r < rows@.len() ==> row_view((#[trigger] rows@[r]).1@) == Seq::new(
                columns@.len(),
                |j: int| first_at(point_views(columns@[j]@), rows@[r].0),
            ),
{
    let ghost cv = columns_view(columns@);
    let times = distinct_times(columns);
    let mut rows: Vec<(i64, Vec<Option<EncodableValue>>)> = Vec::with_capacity(times.len());
    let mut r: usize = 0;
    while r < times.len()
        invariant
            cv == columns_view(columns@),
            r <= times@.len(),
            rows@.len() == r,
            forall|a: int, b: int| 0 <= a < b < times@.len() ==> times@[a] < times@[b],
            forall|a: int| 0 <= a < r ==> (#[trigger] rows@[a]).0 == times@[a],
            forall|a: int|
                0 <= a < r ==> row_view((#[trigger] rows@[a]).1@) == Seq::new(
                    columns@.len(),
                    |k: int| first_at(point_views(columns@[k]@), rows@[a].0),
                ),
        decreases times@.len() - r,
    {
        let t = times[r];
        let mut row: Vec<Option<EncodableValue>> = Vec::with_capacity(columns.len());
        let mut k: usize = 0;
        while k < columns.len()
            invariant
                k <= columns@.len(),
                row@.len() == k,
                forall|c: int| 0 <= c < k ==> (#[trigger] row_view(row@)[c]) == first_at(point_views(columns@[c]@), t),
            decreases columns@.len() - k,
        {
            let v = find_at(&columns[k], t);
            let ghost before = row@;
            row.push(v);
            proof {
                assert forall|c: int| 0 <= c < k + 1 implies (#[trigger] row_view(row@)[c]) == first_at(point_views(columns@[c]@), t) by {
                    if c < k {
                        assert(row@[c] == before[c]);
                        assert(row_view(row@)[c] == row_view(before)[c]);
                    }
                }
            }
            k = k + 1;
        }
        proof {
            assert(row_view(row@) =~= Seq::new(columns@.len(), |c: int| first_at(point_views(columns@[c]@), t)));
        }
        rows.push((t, row));
        r = r + 1;
    }
    proof {
        assert forall|t: i64| has_time(columns_view(columns@), t) <==> exists|a: int| 0 <= a < rows@.len() && #[trigger] rows@[a].0 == t by {
            if times@.contains(t) {
                let a = choose|a: int| 0 <= a < times@.len() && times@[a] == t;
                assert(rows@[a].0 == t);
            }
            if exists|a: int| 0 <= a < rows@.len() && #[trigger] rows@[a].0 == t {
                let a = choose|a: int| 0 <= a < rows@.len() && #[trigger] rows@[a].0 == t;
                assert(times@[a] == t);
            }
        }
    }
    rows
}

/// The times at which some column has a point, each once, in increasing order.
pub(crate) fn distinct_times(columns: &Vec<Vec<(i64, EncodableValue)>>) -> (times: Vec<i64>)
    ensures
        forall|a: int, b: int| 0 <= a < b < times@.len() ==> times@[a] < times@[b],
        forall|t: i64| has_time(columns_view(columns@), t) <==> times@.contains(t),
{
    let ghost cv = columns_view(columns@);
    let mut times: Vec<i64> = Vec::new();
    let mut j: usize = 0;
    while j < columns.len()
        invariant
            cv == columns_view(columns@),
            j <= columns@.len(),
            forall|a: int, b: int| 0 <= a < b < times@.len() ==> times@[a] < times@[b],
            forall|t: i64|
                (exists|k: int, i: int| 0 <= k < j && 0 <= i < cv[k].len() && #[trigger] cv[k][i].0 == t)
                    <==> times@.contains(t),
        decreases columns@.len() - j,
    {
        let column = &columns[j];
        let mut i: usize = 0;
        while i < column.len()
            invariant
                cv == columns_view(columns@),
                j < columns@.len(),
                *column == columns@[j as int],
                i <= column@.len(),
                forall|a: int, b: int| 0 <= a < b < times@.len() ==> times@[a] < times@[b],
                forall|t: i64|
                    ((exists|k: int, i2: int| 0 <= k < j && 0 <= i2 < cv[k].len() && #[trigger] cv[k][i2].0 == t)
                        || (exists|i2: int| 0 <= i2 < i && #[trigger] column@[i2].0 == t))
                        <==> times@.contains(t),
            decreases column@.len() - i,
        {
            insert_sorted(&mut times, column[i].0);
            i = i + 1;
        }
        proof {
            assert forall|t: i64|
                (exists|k: int, i2: int| 0 <= k < j + 1 && 0 <= i2 < cv[k].len() && #[trigger] cv[k][i2].0 == t)
                    <==> times@.contains(t) by {
                if exists|i2: int| 0 <= i2 < column@.len() && #[trigger] column@[i2].0 == t {
                    let i2 = choose|i2: int| 0 <= i2 < column@.len() && #[trigger] column@[i2].0 == t;
                    assert(cv[j as int][i2].0 == t);
                }
                if exists|k: int, i2: int| 0 <= k < j + 1 && 0 <= i2 < cv[k].len() && #[trigger] cv[k][i2].0 == t {
                    let (k, i2) = choose|k: int, i2: int| 0 <= k < j + 1 && 0 <= i2 < cv[k].len() && #[trigger] cv[k][i2].0 == t;
                    if k == j {
                        assert(column@[i2].0 == t);
                    }
                }
            }
        }
        j = j + 1;
    }
    proof {
        assert forall|t: i64| has_time(columns_view(columns@), t) <==> times@.contains(t) by {
            if has_time(cv, t) {
                let (k, i2) = choose|k: int, i2: int| 0 <= k < cv.len() && 0 <= i2 < cv[k].len() && #[trigger] cv[k][i2].0 == t;
                assert(0 <= k < columns@.len());
            }
        }
    }
    times
}

/// Inserts `t` into the increasing list `times`, unless it holds it already.
pub(crate) fn insert_sorted(times: &mut Vec<i64>, t: i64)
    requires
        forall|a: int, b: int| 0 <= a < b < old(times)@.len() ==> old(times)@[a] < old(times)@[b],
    ensures
        forall|a: int, b: int| 0 <= a < b < final(times)@.len() ==> final(times)@[a] < final(times)@[b],
        forall|x: i64| final(times)@.contains(x) <==> (old(times)@.contains(x) || x == t),
{
    let mut i: usize = 0;
    while i < times.len() && times[i] < t
        invariant
            i <= times@.len(),
            times@ == old(times)@,
            forall|a: int| 0 <= a < i ==> times@[a] < t,
        decreases times@.len() - i,
    {
        i = i + 1;
    }
    if i < times.len() && times[i] == t {
        proof {
            assert(times@[i as int] == t);
            assert forall|x: i64| times@.contains(x) <==> (old(times)@.contains(x) || x == t) by {
                if x == t {
                    assert(times@[i as int] == x);
                }
            }
        }
        return;
    }
    let ghost before = times@;
    assert(before == old(times)@);
    times.insert(i, t);
    proof {
        assert forall|a: int, b: int| 0 <= a < b < times@.len() implies times@[a] < times@[b] by {
            if b < i {
            } else if b == i {
            } else if a < i {
                assert(times@[b] == before[b - 1]);
                assert(before[i as int] > t);
                if b - 1 > i {
                    assert(before[i as int] < before[b - 1]);
                }
            } else if a == i {
                assert(times@[b] == before[b - 1]);
                if b - 1 > i {
                    assert(before[i as int] < before[b - 1]);
                }
            } else {
                assert(times@[a] == before[a - 1]);
                assert(times@[b] == before[b - 1]);
            }
        }
        assert forall|x: i64| times@.contains(x) <==> (before.contains(x) || x == t) by {
            if times@.contains(x) {
                let a = choose|a: int| 0 <= a < times@.len() && times@[a] == x;
                if a < i {
                    assert(before[a] == x);
                } else if a > i {
                    assert(before[a - 1] == x);
                }
            }
            if before.contains(x) {
                let a = choose|a: int| 0 <= a < before.len() && before[a] == x;
                if a < i {
                    assert(times@[a] == x);
                } else {
                    assert(times@[a + 1] == x);
                }
            }
            if x == t {
                assert(times@[i as int] == t);
            }
        }
        assert forall|x: i64| times@.contains(x) <==> (old(times)@.contains(x) || x == t) by {
            assert(times@.contains(x) <==> (before.contains(x) || x == t));
        }
    }
}

/// The points of the chunk with header `chunk_header` whose pages are `chunk_data`, as
/// the chunk reader reads them.
pub fn read_chunk_data(chunk_header: &ChunkHeader, chunk_data: &[u8]) -> (r: TsFileResult<
    Vec<(i64, EncodableValue)>,
>)
    ensures
        match chunk_points(
            chunk_header.data_type,
            chunk_header.encoding_type,
            chunk_header.compression_type,
            has_page_statistics(chunk_header.chunk_type),
            chunk_data@,
        ) {
            Ok(ps) => r matches Ok(v) && point_views(v@) == ps,
            Err(ReadFailure::Truncated) => r matches Err(TsFileError::Io(_)),
            Err(ReadFailure::Malformed) => r matches Err(TsFileError::DecodingError(_)),
            Err(ReadFailure::Unsupported) => r matches Err(TsFileError::Unsupported(_)),
        },
{
    let data = copy_range(chunk_data, 0, chunk_data.len());
    assert(data@ =~= chunk_data@);
    ChunkReader::new(chunk_header.duplicate(), data).read_all()
}

} // verus!