use vstd::prelude::*;
use crate::blocks::{FileBlock, SignatureBlock};
use crate::error::ExtractError;
use crate::extractor::{data_region, extract, extracted, extraction_outcome, password_bytes};
use crate::stream::{ByteSource, Chain, SubStream};
use crate::volume::{continuation_error, continue_data_next_file, continued_bytes, ParsedVolume};

verus! {

/// The chain state once every continuation is done: the last file block,
/// the volume counter, the cumulative data size and the chained bytes.
pub struct ChainEnd {
    pub file: FileBlock,
    pub file_number: usize,
    pub data_area_size: u64,
    pub bytes: Seq<u8>,
}

/// Runs the continuation protocol from `file` over the volumes that follow,
/// as long as the current block says its data goes on. A file that goes on
/// past the last volume given fails with `NotFound`.
pub open spec fn run_chain(
    file: FileBlock,
    file_number: usize,
    data_area_size: u64,
    bytes: Seq<u8>,
    volumes: Seq<ParsedVolume>,
) -> Result<ChainEnd, ExtractError>
    decreases volumes.len(),
{
    if !file.data_next {
        Ok(ChainEnd { file, file_number, data_area_size, bytes })
    } else if volumes.len() == 0 {
        Err(ExtractError::NotFound)
    } else {
        let next = volumes[0];
        match continuation_error(file, file_number, data_area_size, next) {
            Some(e) => Err(e),
            None => run_chain(
                next.file->Some_0,
                (file_number + 1) as usize,
                (data_area_size + next.file->Some_0.data_area_size) as u64,
                bytes + continued_bytes(next.file->Some_0, next.data@),
                volumes.drop_first(),
            ),
        }
    }
}

/// What extracting a file whose first volume holds `first` and `first_data`
/// gives, with `volumes` following it.
pub open spec fn extraction_result(
    first: FileBlock,
    first_data: Seq<u8>,
    file_number: usize,
    volumes: Seq<ParsedVolume>,
    password: Option<Seq<u8>>,
) -> Result<Seq<u8>, ExtractError> {
    match run_chain(
        first,
        file_number,
        first.data_area_size,
        continued_bytes(first, first_data),
        volumes,
    ) {
        Err(e) => Err(e),
        Ok(end) => extraction_outcome(end.file, password, end.bytes, end.data_area_size as nat),
    }
}

/// Extracts one file whose data starts in the volume that holds `first`
/// (its data region at the front of `first_data`) and may go on through
/// `volumes`, each the next volume opened with its headers parsed.
/// `file_number` is the volume number the first of `volumes` must carry.
pub fn extract_volumes(
    first: FileBlock,
    first_data: ByteSource,
    file_number: usize,
    volumes: Vec<ParsedVolume>,
    password: Option<&str>,
) -> (r: Result<Vec<u8>, ExtractError>)
    requires
        first_data.wf(),
        forall|i: int| 0 <= i < volumes@.len() ==> (#[trigger] volumes@[i]).data.wf(),
    ensures
        match extraction_result(first, first_data@, file_number, volumes@, password_bytes(password)) {
            Ok(bytes) => r is Ok && r->Ok_0@ == bytes,
            Err(e) => r == Err::<Vec<u8>, ExtractError>(e),
        },
{
    let ghost vols0 = volumes@;
    let ghost d0 = first_data@;
    let ghost has_pw = password_bytes(password);
    let mut file = first;
    let mut number = file_number;
    let mut size = file.data_area_size;
    let part = if file.data_next {
        SubStream::new(first_data, file.data_area_size)
    } else {
        SubStream::whole(first_data)
    };
    let mut chain = Chain::single(part);
    let mut rest = volumes;
    let ghost goal = run_chain(
        first,
        file_number,
        first.data_area_size,
        continued_bytes(first, d0),
        vols0,
    );
    let ghost want = match goal {
        Err(e) => Err(e),
        Ok(end) => extraction_outcome(end.file, has_pw, end.bytes, end.data_area_size as nat),
    };
    assert(extraction_result(first, d0, file_number, vols0, has_pw) == want);
    while file.data_next
        invariant
            chain.wf(),
            forall|i: int| 0 <= i < rest@.len() ==> (#[trigger] rest@[i]).data.wf(),
            run_chain(file, number, size, chain@, rest@) == goal,
            extraction_result(first, d0, file_number, vols0, has_pw) == want,
            want == match goal {
                Err(e) => Err(e),
                Ok(end) => extraction_outcome(end.file, has_pw, end.bytes, end.data_area_size as nat),
            },
            d0 == first_data@,
            vols0 == volumes@,
            has_pw == password_bytes(password),
        decreases rest@.len(),
    {
        if rest.len() == 0 {
            assert(goal == run_chain(file, number, size, chain@, rest@));
            assert(goal == Err::<ChainEnd, ExtractError>(ExtractError::NotFound));
            return Err(ExtractError::NotFound);
        }
        let ghost rs = rest@;
        let next = rest.remove(0);
        assert(rest@ =~= rs.drop_first());
        let ghost (f0, n0, s0, c0) = (file, number, size, chain@);
        assert(goal == run_chain(f0, n0, s0, c0, rs));
        match continue_data_next_file(chain, &mut file, &mut number, &mut size, next) {
            Ok(c) => {
                chain = c;
            },
            Err(e) => {
                assert(goal == Err::<ChainEnd, ExtractError>(e));
                return Err(e);
            },
        }
    }
    extract(&file, &mut chain, size, password)
}

/// `volumes` continue `file` one after the other: each has the accepted
/// format version, the expected volume number and the file's name, every
/// one but the last announces a further volume, the last announces none,
/// and the counters stay in range.
pub open spec fn volumes_match(
    file: FileBlock,
    file_number: usize,
    data_area_size: u64,
    volumes: Seq<ParsedVolume>,
) -> bool
    decreases volumes.len(),
{
    if volumes.len() == 0 {
        !file.data_next
    } else {
        let next = volumes[0];
        let new_file = next.file->Some_0;
        &&& file.data_next
        &&& next.signature == Some(SignatureBlock::Rar5)
        &&& next.archive is Some
        &&& next.archive->Some_0.volume_number == file_number
        &&& next.file is Some
        &&& new_file.name@ == file.name@
        &&& file_number < usize::MAX
        &&& data_area_size + new_file.data_area_size <= u64::MAX
        &&& volumes_match(
            new_file,
            (file_number + 1) as usize,
            (data_area_size + new_file.data_area_size) as u64,
            volumes.drop_first(),
        )
    }
}

/// The data regions of `volumes`, one after the other.
pub open spec fn regions(volumes: Seq<ParsedVolume>) -> Seq<u8>
    decreases volumes.len(),
{
    if volumes.len() == 0 {
        Seq::empty()
    } else {
        continued_bytes(volumes[0].file->Some_0, volumes[0].data@) + regions(volumes.drop_first())
    }
}

/// The sum of the declared data sizes of `volumes`.
pub open spec fn total_size(volumes: Seq<ParsedVolume>) -> nat
    decreases volumes.len(),
{
    if volumes.len() == 0 {
        0
    } else {
        (volumes[0].file->Some_0.data_area_size + total_size(volumes.drop_first())) as nat
    }
}

/// The file block in force after `volumes`.
pub open spec fn last_file(file: FileBlock, volumes: Seq<ParsedVolume>) -> FileBlock {
    if volumes.len() == 0 {
        file
    } else {
        volumes.last().file->Some_0
    }
}

/// Over volumes that match, the continuation protocol succeeds at every
/// step and chains their data regions in order.
pub proof fn lemma_matching_volumes_chain(
    file: FileBlock,
    file_number: usize,
    data_area_size: u64,
    bytes: Seq<u8>,
    volumes: Seq<ParsedVolume>,
)
    requires
        volumes_match(file, file_number, data_area_size, volumes),
    ensures
        run_chain(file, file_number, data_area_size, bytes, volumes) == Ok::<
            ChainEnd,
            ExtractError,
        >(
            ChainEnd {
                file: last_file(file, volumes),
                file_number: (file_number + volumes.len()) as usize,
                data_area_size: (data_area_size + total_size(volumes)) as u64,
                bytes: bytes + regions(volumes),
            },
        ),
    decreases volumes.len(),
{
    if volumes.len() == 0 {
        assert(bytes + regions(volumes) =~= bytes);
    } else {
        let next = volumes[0];
        let new_file = next.file->Some_0;
        let rest = volumes.drop_first();
        let more = continued_bytes(new_file, next.data@);
        lemma_matching_volumes_chain(
            new_file,
            (file_number + 1) as usize,
            (data_area_size + new_file.data_area_size) as u64,
            bytes + more,
            rest,
        );
        assert(bytes + more + regions(rest) =~= bytes + regions(volumes));
        if rest.len() > 0 {
            assert(rest.last() == volumes.last());
        }
    }
}

/// Extraction over N volumes that match yields the data regions of all
/// volumes in sequence, cut at the cumulative declared size and at the
/// file's expected size.
pub proof fn lemma_extract_matching_volumes(
    first: FileBlock,
    first_data: Seq<u8>,
    file_number: usize,
    volumes: Seq<ParsedVolume>,
    password: Option<Seq<u8>>,
)
    requires
        volumes_match(first, file_number, first.data_area_size, volumes),
        last_file(first, volumes).encryption is None,
    ensures
        extraction_result(first, first_data, file_number, volumes, password) == Ok::<
            Seq<u8>,
            ExtractError,
        >(
            extracted(
                data_region(
                    continued_bytes(first, first_data) + regions(volumes),
                    (first.data_area_size + total_size(volumes)) as nat,
                ),
                last_file(first, volumes).unpacked_size as nat,
            ),
        ),
{
    lemma_matching_volumes_chain(
        first,
        file_number,
        first.data_area_size,
        continued_bytes(first, first_data),
        volumes,
    );
    lemma_total_size_fits(first, file_number, first.data_area_size, volumes);
}

/// Over matching volumes the cumulative size stays in range.
pub proof fn lemma_total_size_fits(
    file: FileBlock,
    file_number: usize,
    data_area_size: u64,
    volumes: Seq<ParsedVolume>,
)
    requires
        volumes_match(file, file_number, data_area_size, volumes),
    ensures
        data_area_size + total_size(volumes) <= u64::MAX,
    decreases volumes.len(),
{
    if volumes.len() > 0 {
        let new_file = volumes[0].file->Some_0;
        lemma_total_size_fits(
            new_file,
            (file_number + 1) as usize,
            (data_area_size + new_file.data_area_size) as u64,
            volumes.drop_first(),
        );
    }
}

} // verus!
