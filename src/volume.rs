use vstd::prelude::*;
use crate::blocks::{ArchiveBlock, FileBlock, SignatureBlock};
use crate::error::{ExtractError, HeaderKind};
use crate::stream::{min, ByteSource, Chain, SubStream};
use vstd::string::StringSliceAdditionalSpecFns;

verus! {

/// The decimal digits of `n` in ASCII, most significant first.
pub open spec fn decimal(n: nat) -> Seq<u8>
    decreases n,
{
    if n < 10 {
        seq![(48 + n) as u8]
    } else {
        decimal(n / 10) + seq![(48 + n % 10) as u8]
    }
}

/// The archive extension that ends every volume name.
pub open spec fn rar_extension() -> Seq<u8> {
    seq![46u8, 114u8, 97u8, 114u8]
}

/// A byte that starts a UTF-8 encoded character (no continuation byte).
pub open spec fn starts_char(b: u8) -> bool {
    b < 0x80 || b >= 0xC0
}

/// A volume name ends in five bytes that can be replaced: the volume's
/// number and the extension.
pub open spec fn name_conforms(name: Seq<u8>) -> bool {
    name.len() >= 5 && starts_char(name[name.len() - 5])
}

/// The name of volume `n`: the last five bytes of `name` replaced by the
/// decimal number `n` and the extension.
pub open spec fn volume_name(name: Seq<u8>, n: nat) -> Seq<u8> {
    name.take(name.len() - 5) + decimal(n) + rar_extension()
}

/// The ASCII decimal digits of `n`.
pub fn decimal_digits(n: u64) -> (r: Vec<u8>)
    ensures
        r@ == decimal(n as nat),
    decreases n,
{
    if n < 10 {
        let mut v: Vec<u8> = Vec::new();
        v.push(48u8 + n as u8);
        assert(v@ =~= decimal(n as nat));
        v
    } else {
        let mut v = decimal_digits(n / 10);
        v.push(48u8 + (n % 10) as u8);
        assert(v@ =~= decimal(n as nat));
        v
    }
}

/// Derives the name of the volume that follows volume `file_number`:
/// the last five bytes of `file_name` become `file_number + 1` and ".rar".
pub fn next_volume_name(file_name: &str, file_number: usize) -> (r: Result<Vec<u8>, ExtractError>)
    requires
        file_number < usize::MAX,
    ensures
        name_conforms(file_name.spec_bytes()) ==> r == Ok::<Vec<u8>, ExtractError>(
            r->Ok_0,
        ) && r->Ok_0@ == volume_name(file_name.spec_bytes(), (file_number + 1) as nat),
        !name_conforms(file_name.spec_bytes()) ==> r == Err::<Vec<u8>, ExtractError>(
            ExtractError::BadVolumeName,
        ),
{
    let bytes = file_name.as_bytes();
    let len = bytes.len();
    if len < 5 || !(bytes[len - 5] < 0x80 || bytes[len - 5] >= 0xC0) {
        return Err(ExtractError::BadVolumeName);
    }
    let keep = len - 5;
    let mut out: Vec<u8> = Vec::new();
    let mut i: usize = 0;
    while i < keep
        invariant
            keep <= bytes@.len(),
            i <= keep,
            out@ == bytes@.take(i as int),
        decreases keep - i,
    {
        out.push(bytes[i]);
        i = i + 1;
        assert(out@ =~= bytes@.take(i as int));
    }
    let mut digits = decimal_digits(file_number as u64 + 1);
    out.append(&mut digits);
    out.push(46u8);
    out.push(114u8);
    out.push(97u8);
    out.push(114u8);
    assert(out@ =~= volume_name(bytes@, (file_number + 1) as nat));
    Ok(out)
}

/// The next volume, opened and its three headers run through the parser:
/// each header is `None` where it failed to parse. `data` is what follows
/// the headers.
pub struct ParsedVolume {
    pub signature: Option<SignatureBlock>,
    pub archive: Option<ArchiveBlock>,
    pub file: Option<FileBlock>,
    pub data: ByteSource,
}

/// Why the continuation into `next` fails, checked in protocol order:
/// the three parses, then format version, volume number, file identity,
/// and last the range of the chain state's counters. `None` if it succeeds.
pub open spec fn continuation_error(
    file: FileBlock,
    file_number: usize,
    data_area_size: u64,
    next: ParsedVolume,
) -> Option<ExtractError> {
    header_error(file, file_number, data_area_size, next.signature, next.archive, next.file)
}

/// Why the three parsed headers of the next volume do not continue `file`,
/// in protocol order; `None` if they do.
pub open spec fn header_error(
    file: FileBlock,
    file_number: usize,
    data_area_size: u64,
    signature: Option<SignatureBlock>,
    archive: Option<ArchiveBlock>,
    new_file: Option<FileBlock>,
) -> Option<ExtractError> {
    if signature is None {
        Some(ExtractError::Format(HeaderKind::Signature))
    } else if archive is None {
        Some(ExtractError::Format(HeaderKind::Archive))
    } else if new_file is None {
        Some(ExtractError::Format(HeaderKind::File))
    } else if signature->Some_0 != SignatureBlock::Rar5 {
        Some(ExtractError::VersionMismatch)
    } else if archive->Some_0.volume_number != file_number {
        Some(ExtractError::SequenceMismatch)
    } else if new_file->Some_0.name@ != file.name@ {
        Some(ExtractError::IdentityMismatch)
    } else if file_number == usize::MAX || data_area_size + new_file->Some_0.data_area_size
        > u64::MAX {
        Some(ExtractError::SizeOverflow)
    } else {
        None
    }
}

/// The bound the next volume's stream gets: its declared region when the
/// file goes on further, none (to the stream's end) otherwise.
pub open spec fn next_bound(new_file: FileBlock) -> Option<u64> {
    if new_file.data_next {
        Some(new_file.data_area_size)
    } else {
        None
    }
}

/// Validates the parsed headers of the next volume against the chain state
/// and, if they continue the file, advances the state as a continuation
/// does and returns the bound for the new volume's stream. A streaming
/// caller keeps the volume's reader and applies the bound itself.
pub fn accept_next_volume(
    file: &mut FileBlock,
    file_number: &mut usize,
    data_area_size: &mut u64,
    signature: Option<SignatureBlock>,
    archive: Option<ArchiveBlock>,
    new_file: Option<FileBlock>,
) -> (r: Result<Option<u64>, ExtractError>)
    ensures
        header_error(*old(file), *old(file_number), *old(data_area_size), signature, archive, new_file)
            is Some ==> r == Err::<Option<u64>, ExtractError>(
            header_error(
                *old(file),
                *old(file_number),
                *old(data_area_size),
                signature,
                archive,
                new_file,
            )->Some_0,
        ) && *final(file) == *old(file) && *final(file_number) == *old(file_number)
            && *final(data_area_size) == *old(data_area_size),
        header_error(*old(file), *old(file_number), *old(data_area_size), signature, archive, new_file)
            is None ==> r == Ok::<Option<u64>, ExtractError>(next_bound(new_file->Some_0))
            && *final(file) == new_file->Some_0 && *final(file_number) == *old(file_number) + 1
            && *final(data_area_size) == *old(data_area_size) + new_file->Some_0.data_area_size,
{
    let version = match signature {
        Some(v) => v,
        None => return Err(ExtractError::Format(HeaderKind::Signature)),
    };
    let details = match archive {
        Some(a) => a,
        None => return Err(ExtractError::Format(HeaderKind::Archive)),
    };
    let new_file = match new_file {
        Some(f) => f,
        None => return Err(ExtractError::Format(HeaderKind::File)),
    };
    if version != SignatureBlock::Rar5 {
        return Err(ExtractError::VersionMismatch);
    }
    if details.volume_number != *file_number as u64 {
        return Err(ExtractError::SequenceMismatch);
    }
    if new_file.name != file.name {
        return Err(ExtractError::IdentityMismatch);
    }
    if *file_number == usize::MAX || new_file.data_area_size > u64::MAX - *data_area_size {
        return Err(ExtractError::SizeOverflow);
    }
    let bound = if new_file.data_next {
        Some(new_file.data_area_size)
    } else {
        None
    };
    *file_number = *file_number + 1;
    *data_area_size = *data_area_size + new_file.data_area_size;
    *file = new_file;
    Ok(bound)
}

/// The bytes that a continuation adds to the chain: the new volume's data
/// bounded to its declared region when the file goes on further, else all
/// of it.
pub open spec fn continued_bytes(new_file: FileBlock, data: Seq<u8>) -> Seq<u8> {
    if new_file.data_next {
        data.take(min(new_file.data_area_size as int, data.len() as int))
    } else {
        data
    }
}

/// Splices the next volume into the chain of the file being extracted.
/// On success the file's block is replaced by the new one, the volume
/// counter goes up by one, the cumulative size grows by the new region, and
/// the returned chain yields the rest of `buffer` and then the new bytes.
/// On failure the chain state is left as it was.
pub fn continue_data_next_file(
    buffer: Chain,
    file: &mut FileBlock,
    file_number: &mut usize,
    data_area_size: &mut u64,
    next: ParsedVolume,
) -> (r: Result<Chain, ExtractError>)
    requires
        buffer.wf(),
        next.data.wf(),
    ensures
        continuation_error(*old(file), *old(file_number), *old(data_area_size), next) is Some
            ==> r == Err::<Chain, ExtractError>(
            continuation_error(*old(file), *old(file_number), *old(data_area_size), next)->Some_0,
        ) && *final(file) == *old(file) && *final(file_number) == *old(file_number)
            && *final(data_area_size) == *old(data_area_size),
        continuation_error(*old(file), *old(file_number), *old(data_area_size), next) is None
            ==> r is Ok && r->Ok_0.wf() && *final(file) == next.file->Some_0 && *final(file_number)
            == *old(file_number) + 1 && *final(data_area_size) == *old(data_area_size)
            + next.file->Some_0.data_area_size && r->Ok_0@ == buffer@ + continued_bytes(
            next.file->Some_0,
            next.data@,
        ),
{
    let bound = match accept_next_volume(
        file,
        file_number,
        data_area_size,
        next.signature,
        next.archive,
        next.file,
    ) {
        Ok(b) => b,
        Err(e) => return Err(e),
    };
    let new_buffer = match bound {
        Some(limit) => SubStream::new(next.data, limit),
        None => SubStream::whole(next.data),
    };
    Ok(buffer.chain(new_buffer))
}

/// The continuation protocol refuses a volume of another format version, a
/// volume out of sequence, and a volume holding another file, each with its
/// own error, once its three headers have parsed.
pub proof fn lemma_continuation_rejects(
    file: FileBlock,
    file_number: usize,
    data_area_size: u64,
    next: ParsedVolume,
)
    requires
        next.signature is Some,
        next.archive is Some,
        next.file is Some,
    ensures
        next.signature->Some_0 != SignatureBlock::Rar5 ==> continuation_error(
            file,
            file_number,
            data_area_size,
            next,
        ) == Some(ExtractError::VersionMismatch),
        next.signature->Some_0 == SignatureBlock::Rar5 && next.archive->Some_0.volume_number
            != file_number ==> continuation_error(file, file_number, data_area_size, next)
            == Some(ExtractError::SequenceMismatch),
        next.signature->Some_0 == SignatureBlock::Rar5 && next.archive->Some_0.volume_number
            == file_number && next.file->Some_0.name@ != file.name@ ==> continuation_error(
            file,
            file_number,
            data_area_size,
            next,
        ) == Some(ExtractError::IdentityMismatch),
{
}

} // verus!
