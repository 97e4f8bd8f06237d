use revyos_imager::flash::{
    Action, Event, Failure, FlashError, IOError, Phase, ProtocolError, Stage, Strategy, Transfer,
    UnitStep,
};
use revyos_imager::sparse::{parse_chunk, parse_header, ChunkKind, ChunkRecord, FormatError};
use revyos_imager::split::{SplitError, TransferUnit};
use revyos_imager::stream::Segment;

/// What a device that does as it is told has seen of a transfer.
struct Seen {
    uploads: Vec<Vec<u8>>,
    commits: Vec<String>,
    reports: Vec<(u64, u64)>,
    end: Result<Phase, Failure>,
}

fn answer(source: &[u8], variable: &str, action: &Action, seen: &mut Seen) -> Event {
    match action {
        Action::GetVariable(name) => {
            assert_eq!(name, "max-download-size");
            Event::Variable(variable.to_string())
        }
        Action::ReadSource { offset, len } => {
            let from = (*offset as usize).min(source.len());
            let to = (from + *len as usize).min(source.len());
            Event::Bytes(source[from..to].to_vec())
        }
        Action::Upload { size, segments } => {
            let mut data = Vec::new();
            for segment in segments {
                match segment {
                    Segment::Bytes(bytes) => data.extend_from_slice(bytes),
                    Segment::Source { offset, len } => {
                        let from = *offset as usize;
                        data.extend_from_slice(&source[from..from + *len as usize]);
                    }
                }
            }
            assert_eq!(data.len(), *size as usize);
            seen.uploads.push(data);
            Event::Done
        }
        Action::Commit(partition) => {
            assert_eq!(seen.commits.len() + 1, seen.uploads.len());
            seen.commits.push(partition.clone());
            Event::Done
        }
        Action::Report { completed, total } => {
            assert_eq!(seen.commits.len(), seen.reports.len() + 1);
            seen.reports.push((*completed, *total));
            Event::Done
        }
        Action::Finish | Action::Abort(_) => unreachable!(),
    }
}

fn flash(source: &[u8], variable: &str) -> Seen {
    let mut seen = Seen { uploads: vec![], commits: vec![], reports: vec![], end: Ok(Phase::QueryMaxSize) };
    let (mut transfer, mut action) = Transfer::new("boot".to_string(), source.len() as u64);
    loop {
        match &action {
            Action::Finish => {
                seen.end = Ok(transfer.phase);
                return seen;
            }
            Action::Abort(failure) => {
                assert_eq!(transfer.phase, Phase::Failed(*failure));
                seen.end = Err(*failure);
                return seen;
            }
            _ => {}
        }
        let event = answer(source, variable, &action, &mut seen);
        (transfer, action) = transfer.step(event);
        assert_eq!(transfer.partition, "boot");
        assert_eq!(transfer.source_len, source.len() as u64);
    }
}

fn chunk(kind: ChunkKind, blocks: u32, payload: &[u8]) -> Vec<u8> {
    let record = ChunkRecord { kind, block_count: blocks, total_size: 12 + payload.len() as u32 };
    let mut bytes = record.to_bytes().to_vec();
    bytes.extend_from_slice(payload);
    bytes
}

fn image(block_size: u32, chunks: &[(ChunkKind, u32, Vec<u8>)]) -> Vec<u8> {
    let mut bytes = vec![0x3a, 0xff, 0x26, 0xed, 1, 0, 0, 0, 28, 0, 12, 0];
    bytes.extend_from_slice(&block_size.to_le_bytes());
    bytes.extend_from_slice(&chunks.iter().map(|c| c.1).sum::<u32>().to_le_bytes());
    bytes.extend_from_slice(&(chunks.len() as u32).to_le_bytes());
    bytes.extend_from_slice(&0x1234u32.to_le_bytes());
    for (kind, blocks, payload) in chunks {
        bytes.extend_from_slice(&chunk(*kind, *blocks, payload));
    }
    bytes
}

fn three_chunks() -> Vec<u8> {
    image(
        16,
        &[
            (ChunkKind::Raw, 4, (0u8..64).collect()),
            (ChunkKind::Fill, 9, vec![0xaa, 0xbb, 0xcc, 0xdd]),
            (ChunkKind::Skip, 2, vec![]),
            (ChunkKind::Raw, 2, (100u8..132).collect()),
        ],
    )
}

/// The header and the chunk headers of an upload, and the payload bytes
/// between them.
fn read_back(upload: &[u8]) -> (u32, u32, Vec<(ChunkRecord, Vec<u8>)>) {
    let header = parse_header(upload).unwrap();
    let mut at = 28;
    let mut chunks = Vec::new();
    for _ in 0..header.total_chunks {
        let record = parse_chunk(&upload[at..]).unwrap();
        let end = at + record.total_size as usize;
        chunks.push((record, upload[at + 12..end].to_vec()));
        at = end;
    }
    assert_eq!(at, upload.len());
    (header.block_size, header.total_blocks, chunks)
}

#[test]
fn sparse_image_that_fits_goes_in_one_unit() {
    let source = three_chunks();
    let seen = flash(&source, "0x00001000");
    assert_eq!(seen.end, Ok(Phase::Complete { total: 1 }));
    assert_eq!(seen.commits, vec!["boot"]);
    assert_eq!(seen.reports, vec![(1, 1)]);
    assert_eq!(seen.uploads.len(), 1);
    assert_eq!(seen.uploads[0][28..], source[28..]);
    let (block_size, blocks, chunks) = read_back(&seen.uploads[0]);
    assert_eq!((block_size, blocks, chunks.len()), (16, 17, 4));
}

#[test]
fn sparse_image_is_packed_into_units_that_are_images_themselves() {
    let source = three_chunks();
    // The header and the first chunk are 104 bytes; with the second they
    // would be 120. The other three chunks and a header are 100 bytes.
    let seen = flash(&source, "0x70");
    assert_eq!(seen.end, Ok(Phase::Complete { total: 2 }));
    assert_eq!(seen.commits, vec!["boot", "boot"]);
    assert_eq!(seen.reports, vec![(1, 2), (2, 2)]);
    let mut chunks = Vec::new();
    let mut blocks = 0;
    for upload in &seen.uploads {
        assert!(upload.len() <= 0x70);
        let (block_size, unit_blocks, unit_chunks) = read_back(upload);
        assert_eq!(block_size, 16);
        assert_eq!(unit_blocks, unit_chunks.iter().map(|c| c.0.block_count).sum::<u32>());
        blocks += unit_blocks;
        chunks.extend(unit_chunks);
    }
    assert_eq!(blocks, 17);
    let (_, _, in_source) = read_back(&source);
    assert_eq!(chunks, in_source);
    assert_eq!(seen.uploads.iter().map(|u| u.len()).collect::<Vec<_>>(), vec![104, 100]);
}

#[test]
fn chunk_too_large_for_a_unit_ends_the_transfer_before_any_upload() {
    let source = three_chunks();
    let seen = flash(&source, "0x67");
    assert_eq!(
        seen.end,
        Err(Failure { stage: Stage::Split, error: FlashError::Split(SplitError::UnsplittableChunk) })
    );
    assert!(seen.uploads.is_empty());
    assert!(seen.reports.is_empty());
    let seen = flash(&source, "0x68");
    assert_eq!(seen.end, Ok(Phase::Complete { total: 2 }));
}

#[test]
fn sparse_image_without_chunks_is_done_at_once() {
    let seen = flash(&image(4096, &[]), "0x1000");
    assert_eq!(seen.end, Ok(Phase::Complete { total: 0 }));
    assert!(seen.uploads.is_empty() && seen.commits.is_empty() && seen.reports.is_empty());
}

#[test]
fn empty_source_is_done_at_once() {
    let seen = flash(&[], "0x1000");
    assert_eq!(seen.end, Ok(Phase::Complete { total: 0 }));
    assert!(seen.uploads.is_empty() && seen.commits.is_empty() && seen.reports.is_empty());
    let seen = flash(&[], "0x0");
    assert_eq!(seen.end, Ok(Phase::Complete { total: 0 }));
}

#[test]
fn source_without_magic_smaller_than_a_transfer_goes_as_it_is() {
    let source: Vec<u8> = (0u8..200).collect();
    let seen = flash(&source, "0xc9");
    assert_eq!(seen.end, Ok(Phase::Complete { total: 1 }));
    assert_eq!(seen.uploads, vec![source.clone()]);
    assert_eq!(seen.commits, vec!["boot"]);
    assert_eq!(seen.reports, vec![(1, 1)]);
}

#[test]
fn raw_source_is_routed_by_its_size() {
    let source: Vec<u8> = (0u8..200).collect();
    let strategy_for = |max: u32| {
        let (transfer, _) = Transfer::new("boot".to_string(), 200);
        let (transfer, _) = transfer.step(Event::Variable(format!("0x{max:x}")));
        let (transfer, action) = transfer.step(Event::Bytes(source[..28].to_vec()));
        match (transfer.phase, action) {
            (Phase::ForEachUnit { strategy, units, index: 0, step: UnitStep::Upload }, Action::Upload { size, segments }) => {
                assert_eq!(size, units[0].total_size());
                assert_eq!(segments, units[0].segments());
                (strategy, units)
            }
            other => panic!("no units: {other:?}"),
        }
    };
    assert_eq!(
        strategy_for(201),
        (Strategy::RawDirect, vec![TransferUnit::Raw { offset: 0, len: 200 }])
    );
    assert_eq!(
        strategy_for(200),
        (Strategy::RawSplit, vec![TransferUnit::Raw { offset: 0, len: 200 }])
    );
    assert_eq!(
        strategy_for(120),
        (
            Strategy::RawSplit,
            vec![
                TransferUnit::Raw { offset: 0, len: 120 },
                TransferUnit::Raw { offset: 120, len: 80 }
            ]
        )
    );
}

#[test]
fn large_raw_source_is_cut_into_ranges() {
    let source: Vec<u8> = (0..1000u32).map(|i| (i % 251) as u8).collect();
    let seen = flash(&source, "0x12c");
    assert_eq!(seen.end, Ok(Phase::Complete { total: 4 }));
    assert_eq!(seen.uploads.iter().map(|u| u.len()).collect::<Vec<_>>(), vec![300, 300, 300, 100]);
    assert_eq!(seen.uploads.concat(), source);
    assert_eq!(seen.reports, vec![(1, 4), (2, 4), (3, 4), (4, 4)]);
    assert_eq!(seen.commits.len(), 4);
}

#[test]
fn raw_source_and_a_device_that_takes_nothing() {
    let seen = flash(&[1, 2, 3], "0x0");
    assert_eq!(
        seen.end,
        Err(Failure { stage: Stage::Split, error: FlashError::Split(SplitError::UnsplittableChunk) })
    );
}

#[test]
fn truncated_header_ends_the_transfer() {
    let source = three_chunks();
    let seen = flash(&source[..20], "0x1000");
    assert_eq!(
        seen.end,
        Err(Failure { stage: Stage::Parse, error: FlashError::Format(FormatError::CorruptHeader) })
    );
    assert!(seen.uploads.is_empty());
}

#[test]
fn bad_chunk_header_ends_the_transfer() {
    let mut source = three_chunks();
    source[28 + 76] = 0xc9;
    let seen = flash(&source, "0x1000");
    assert_eq!(
        seen.end,
        Err(Failure { stage: Stage::Parse, error: FlashError::Format(FormatError::CorruptChunk) })
    );
    let source = three_chunks();
    let seen = flash(&source[..source.len() - 40], "0x1000");
    assert_eq!(
        seen.end,
        Err(Failure { stage: Stage::Parse, error: FlashError::Format(FormatError::CorruptChunk) })
    );
}

#[test]
fn more_blocks_than_a_header_can_count_is_corrupt() {
    let source = image(
        16,
        &[(ChunkKind::Skip, u32::MAX, vec![]), (ChunkKind::Skip, 0, vec![]), (ChunkKind::Skip, 1, vec![])],
    );
    let seen = flash(&source, "0x1000");
    assert_eq!(
        seen.end,
        Err(Failure { stage: Stage::Parse, error: FlashError::Format(FormatError::CorruptChunk) })
    );
}

fn after_size(value: &str) -> (Phase, Action) {
    let (transfer, action) = Transfer::new("root".to_string(), 5);
    assert_eq!(action, Action::GetVariable("max-download-size".to_string()));
    assert_eq!(transfer.phase, Phase::QueryMaxSize);
    let (transfer, action) = transfer.step(Event::Variable(value.to_string()));
    (transfer.phase, action)
}

#[test]
fn size_is_read_as_hexadecimal_behind_0x() {
    let read = Action::ReadSource { offset: 0, len: 28 };
    assert_eq!(after_size("0x10000000"), (Phase::ParseSource { max: 0x1000_0000 }, read.clone()));
    assert_eq!(after_size("0x0012abcd"), (Phase::ParseSource { max: 0x12abcd }, read.clone()));
    assert_eq!(after_size("0xFFFFFFFF"), (Phase::ParseSource { max: u32::MAX }, read.clone()));
    assert_eq!(after_size("0x+1f"), (Phase::ParseSource { max: 31 }, read.clone()));
    assert_eq!(after_size("0x000000000000000a"), (Phase::ParseSource { max: 10 }, read));
}

#[test]
fn value_that_states_no_size_ends_the_transfer() {
    let failure = Failure {
        stage: Stage::SizeQuery,
        error: FlashError::Protocol(ProtocolError::DeviceUnresponsive),
    };
    for value in ["", "0x", "0x+", "123456", "0x1g", "0x100000000", "0X10", " 0x10", "0x-1", "0x10 ", "0x١"] {
        assert_eq!(after_size(value), (Phase::Failed(failure), Action::Abort(failure)), "{value:?}");
    }
}

#[test]
fn failure_of_the_size_query_ends_the_transfer() {
    let (transfer, _) = Transfer::new("root".to_string(), 5);
    let (transfer, action) = transfer.step(Event::DeviceFailed(ProtocolError::DeviceUnresponsive));
    let failure = Failure {
        stage: Stage::SizeQuery,
        error: FlashError::Protocol(ProtocolError::DeviceUnresponsive),
    };
    assert_eq!((transfer.phase, action), (Phase::Failed(failure), Action::Abort(failure)));
}

/// The transfer of a raw source of 10 bytes in units of 4, once `steps`
/// answers have been given by a device that does as it is told.
fn underway(steps: usize) -> (Transfer, Action) {
    let source = [7u8; 10];
    let mut seen = Seen { uploads: vec![], commits: vec![], reports: vec![], end: Ok(Phase::QueryMaxSize) };
    let (mut transfer, mut action) = Transfer::new("boot".to_string(), 10);
    for _ in 0..steps {
        let event = answer(&source, "0x4", &action, &mut seen);
        (transfer, action) = transfer.step(event);
    }
    (transfer, action)
}

#[test]
fn each_unit_is_uploaded_committed_and_reported() {
    let unit = |k: u64| Action::Upload {
        size: if k < 2 { 4 } else { 2 },
        segments: vec![Segment::Source { offset: 4 * k, len: if k < 2 { 4 } else { 2 } }],
    };
    let expected = vec![
        Action::ReadSource { offset: 0, len: 28 },
        unit(0),
        Action::Commit("boot".to_string()),
        Action::Report { completed: 1, total: 3 },
        unit(1),
        Action::Commit("boot".to_string()),
        Action::Report { completed: 2, total: 3 },
        unit(2),
        Action::Commit("boot".to_string()),
        Action::Report { completed: 3, total: 3 },
        Action::Finish,
    ];
    for (steps, action) in expected.iter().enumerate() {
        assert_eq!(&underway(steps + 1).1, action);
    }
}

#[test]
fn refused_upload_ends_the_transfer() {
    let (transfer, action) = underway(2);
    assert!(matches!(action, Action::Upload { .. }));
    let (transfer, action) = transfer.step(Event::DeviceFailed(ProtocolError::Rejected));
    let failure =
        Failure { stage: Stage::Upload, error: FlashError::Protocol(ProtocolError::Rejected) };
    assert_eq!((transfer.phase, action), (Phase::Failed(failure), Action::Abort(failure)));
}

#[test]
fn source_that_cannot_be_read_ends_the_upload() {
    let (transfer, _) = underway(5);
    let (transfer, action) = transfer.step(Event::SourceFailed(IOError::SeekFailed));
    let failure = Failure { stage: Stage::Upload, error: FlashError::Io(IOError::SeekFailed) };
    assert_eq!((transfer.phase, action), (Phase::Failed(failure), Action::Abort(failure)));
}

#[test]
fn refused_commit_ends_the_transfer() {
    let (transfer, action) = underway(3);
    assert_eq!(action, Action::Commit("boot".to_string()));
    let (transfer, action) = transfer.step(Event::DeviceFailed(ProtocolError::DeviceUnresponsive));
    let failure = Failure {
        stage: Stage::Commit,
        error: FlashError::Protocol(ProtocolError::DeviceUnresponsive),
    };
    assert_eq!((transfer.phase, action), (Phase::Failed(failure), Action::Abort(failure)));
}

#[test]
fn failing_to_report_does_not_end_the_transfer() {
    let (transfer, action) = underway(4);
    assert_eq!(action, Action::Report { completed: 1, total: 3 });
    let (transfer, action) = transfer.step(Event::DeviceFailed(ProtocolError::Rejected));
    assert!(matches!(transfer.phase, Phase::ForEachUnit { index: 1, step: UnitStep::Upload, .. }));
    assert_eq!(
        action,
        Action::Upload { size: 4, segments: vec![Segment::Source { offset: 4, len: 4 }] }
    );
}

#[test]
fn source_that_cannot_be_read_ends_the_parse() {
    let (transfer, _) = underway(1);
    let (transfer, action) = transfer.step(Event::SourceFailed(IOError::ReadFailed));
    let failure = Failure { stage: Stage::Parse, error: FlashError::Io(IOError::ReadFailed) };
    assert_eq!((transfer.phase, action), (Phase::Failed(failure), Action::Abort(failure)));
}

#[test]
fn answer_of_the_wrong_kind_counts_as_failure() {
    let (transfer, _) = underway(0);
    let (transfer, _) = transfer.step(Event::Done);
    assert_eq!(
        transfer.phase,
        Phase::Failed(Failure {
            stage: Stage::SizeQuery,
            error: FlashError::Protocol(ProtocolError::DeviceUnresponsive)
        })
    );
    let (transfer, _) = underway(1);
    let (transfer, _) = transfer.step(Event::Done);
    assert_eq!(
        transfer.phase,
        Phase::Failed(Failure { stage: Stage::Parse, error: FlashError::Io(IOError::ReadFailed) })
    );
    let (transfer, _) = underway(2);
    let (transfer, _) = transfer.step(Event::Bytes(vec![]));
    assert_eq!(
        transfer.phase,
        Phase::Failed(Failure {
            stage: Stage::Upload,
            error: FlashError::Protocol(ProtocolError::Rejected)
        })
    );
    let (transfer, _) = underway(3);
    let (transfer, _) = transfer.step(Event::Variable("0x4".to_string()));
    assert_eq!(
        transfer.phase,
        Phase::Failed(Failure {
            stage: Stage::Commit,
            error: FlashError::Protocol(ProtocolError::Rejected)
        })
    );
}

#[test]
fn transfer_that_has_ended_stays_ended() {
    let (transfer, action) = underway(11);
    assert_eq!(action, Action::Finish);
    let (transfer, action) = transfer.step(Event::DeviceFailed(ProtocolError::Rejected));
    assert_eq!((transfer.phase.clone(), action), (Phase::Complete { total: 3 }, Action::Finish));
    let (transfer, action) = transfer.step(Event::Done);
    assert_eq!((transfer.phase, action), (Phase::Complete { total: 3 }, Action::Finish));

    let (transfer, _) = underway(3);
    let (transfer, _) = transfer.step(Event::DeviceFailed(ProtocolError::Rejected));
    let failure =
        Failure { stage: Stage::Commit, error: FlashError::Protocol(ProtocolError::Rejected) };
    let (transfer, action) = transfer.step(Event::Done);
    assert_eq!((transfer.phase, action), (Phase::Failed(failure), Action::Abort(failure)));
}

#[test]
fn failure_is_one_sentence_that_names_the_stage() {
    let say = |stage, error| Failure { stage, error }.message();
    assert_eq!(
        say(Stage::SizeQuery, FlashError::Protocol(ProtocolError::DeviceUnresponsive)),
        "size query failed: device unresponsive"
    );
    assert_eq!(
        say(Stage::Parse, FlashError::Format(FormatError::CorruptHeader)),
        "parse failed: corrupt image header"
    );
    assert_eq!(
        say(Stage::Parse, FlashError::Format(FormatError::CorruptChunk)),
        "parse failed: corrupt chunk header"
    );
    assert_eq!(
        say(Stage::Split, FlashError::Split(SplitError::UnsplittableChunk)),
        "split failed: unsplittable chunk"
    );
    assert_eq!(
        say(Stage::Upload, FlashError::Protocol(ProtocolError::Rejected)),
        "upload failed: rejected by device"
    );
    assert_eq!(say(Stage::Upload, FlashError::Io(IOError::ReadFailed)), "upload failed: read failed");
    assert_eq!(say(Stage::Commit, FlashError::Io(IOError::SeekFailed)), "commit failed: seek failed");
    assert_eq!(
        say(Stage::Parse, FlashError::Format(FormatError::NotThisFormat)),
        "parse failed: not a sparse image"
    );
}
