use std::time::Duration;

use yt_dlp_feed::config::DisconnectBehavior;
use yt_dlp_feed::download::{
    DetachAction, DownloadCoordinator, DownloadLifecycle, DownloadLimitError, EnsuredDownload,
};
use yt_dlp_feed::stream::{trim_chunk_to_offset, DownloadStream, StreamAction, StreamEvent};
use yt_dlp_feed::transfer::{
    keep_stderr_line, DownloadChunk, DownloadTransfer, TransferAction, TransferEvent,
};

fn started(path: &str) -> EnsuredDownload {
    EnsuredDownload::Started {
        temp_path: format!("{path}.download.m4a"),
    }
}

fn life(behavior: DisconnectBehavior, grace: Duration) -> DownloadLifecycle {
    DownloadCoordinator::with_disconnect(behavior, grace.as_nanos()).lifecycle()
}

fn chunk(offset: u64, bytes: &[u8]) -> DownloadChunk {
    DownloadChunk {
        offset,
        bytes: bytes.to_vec(),
    }
}

#[test]
fn concurrent_download_requests_share_job() {
    let mut coordinator = DownloadCoordinator::new();
    assert_eq!(
        coordinator.ensure_download("same".to_string(), "/m/item.m4a"),
        started("/m/item.m4a")
    );
    assert_eq!(
        coordinator.ensure_download("same".to_string(), "/m/item.m4a"),
        EnsuredDownload::Joined
    );
    assert!(coordinator.is_running("same"));
    coordinator.finish("same");
    assert!(!coordinator.is_running("same"));
    assert_eq!(
        coordinator.ensure_download("same".to_string(), "/m/item.m4a"),
        started("/m/item.m4a")
    );
}

#[test]
fn new_downloads_respect_concurrency_limit() {
    let mut coordinator = DownloadCoordinator::with_limit(1);
    assert_eq!(
        coordinator.try_ensure_download("one".to_string(), "/m/item-1.m4a"),
        Ok(started("/m/item-1.m4a"))
    );
    assert_eq!(
        coordinator.try_ensure_download("two".to_string(), "/m/item-2.m4a"),
        Err(DownloadLimitError)
    );
    assert_eq!(
        coordinator.ensure_download("two".to_string(), "/m/item-2.m4a"),
        EnsuredDownload::Failed {
            message: "maximum concurrent media downloads reached".to_string()
        }
    );
    coordinator.finish("one");
    assert_eq!(
        coordinator.try_ensure_download("two".to_string(), "/m/item-2.m4a"),
        Ok(started("/m/item-2.m4a"))
    );
}

#[test]
fn concurrency_limit_allows_joining_existing_download() {
    let mut coordinator = DownloadCoordinator::with_limit(1);
    assert_eq!(
        coordinator.try_ensure_download("same".to_string(), "/m/item.m4a"),
        Ok(started("/m/item.m4a"))
    );
    assert_eq!(
        coordinator.try_ensure_download("same".to_string(), "/m/item.m4a"),
        Ok(EnsuredDownload::Joined)
    );
}

#[test]
fn a_limit_of_none_lets_one_download_run() {
    let mut coordinator =
        DownloadCoordinator::with_disconnect_and_limit(DisconnectBehavior::Cancel, 1, 0);
    assert_eq!(
        coordinator.try_ensure_download("one".to_string(), "1.m4a"),
        Ok(started("1.m4a"))
    );
    assert_eq!(
        coordinator.try_ensure_download("two".to_string(), "2.m4a"),
        Err(DownloadLimitError)
    );
}

#[test]
fn the_default_limit_is_three() {
    let mut coordinator = DownloadCoordinator::new();
    for key in ["a", "b", "c"] {
        assert!(coordinator
            .try_ensure_download(key.to_string(), "x.m4a")
            .is_ok());
    }
    assert!(coordinator
        .try_ensure_download("d".to_string(), "x.m4a")
        .is_err());
    assert_eq!(
        coordinator.lifecycle().grace_nanos(),
        Duration::from_secs(15).as_nanos()
    );
}

#[test]
fn a_path_without_file_name_fails_and_takes_no_slot() {
    let mut coordinator = DownloadCoordinator::with_limit(1);
    assert_eq!(
        coordinator.try_ensure_download("bad".to_string(), "/"),
        Ok(EnsuredDownload::Failed {
            message: "download path has no valid file name".to_string()
        })
    );
    assert!(!coordinator.is_running("bad"));
    assert!(coordinator
        .try_ensure_download("good".to_string(), "good.m4a")
        .is_ok());
}

#[test]
fn stream_download_yields_bytes_before_completion() {
    let mut stream = DownloadStream::start();
    assert_eq!(
        stream.on_read(b"au".to_vec(), None),
        StreamAction::Yield {
            bytes: b"au".to_vec()
        }
    );
    assert_eq!(stream.offset(), 2);
    assert_eq!(stream.on_read(vec![], None), StreamAction::Wait);
}

#[test]
fn stream_download_replays_temp_bytes_for_concurrent_reader() {
    let mut first = DownloadStream::start();
    let mut second = DownloadStream::start();
    for stream in [&mut first, &mut second] {
        assert_eq!(
            stream.on_read(b"au".to_vec(), None),
            StreamAction::Yield {
                bytes: b"au".to_vec()
            }
        );
    }
    let replayed = StreamEvent::Chunk {
        chunk: chunk(0, b"au"),
    };
    assert_eq!(second.on_event(replayed), StreamAction::Read);
    let overlapping = StreamEvent::Chunk {
        chunk: chunk(1, b"udio"),
    };
    assert_eq!(
        second.on_event(overlapping),
        StreamAction::Yield {
            bytes: b"dio".to_vec()
        }
    );
    assert_eq!(second.offset(), 5);
}

#[test]
fn streams_end_as_their_downloads_do() {
    let mut stream = DownloadStream::start();
    assert_eq!(stream.on_read(vec![], Some(Ok(0))), StreamAction::End);
    assert_eq!(
        stream.on_read(vec![], Some(Err("no".to_string()))),
        StreamAction::Fail {
            message: "no".to_string()
        }
    );
    assert_eq!(
        stream.on_read(b"x".to_vec(), Some(Ok(1))),
        StreamAction::Yield {
            bytes: b"x".to_vec()
        }
    );
    assert_eq!(stream.on_event(StreamEvent::NoChunk), StreamAction::Read);
    assert_eq!(stream.on_event(StreamEvent::Tick), StreamAction::Read);
    assert_eq!(
        stream.on_event(StreamEvent::CompletionChanged),
        StreamAction::Read
    );
    assert_eq!(
        stream.on_event(StreamEvent::CompletionClosed),
        StreamAction::Abandon
    );
    assert_eq!(
        stream.on_event(StreamEvent::ShutDown),
        StreamAction::RemoveAndEnd
    );
}

#[test]
fn a_stream_that_is_behind_goes_on_in_the_output() {
    let mut stream = DownloadStream::start();
    stream.on_read(b"au".to_vec(), None);
    assert_eq!(
        stream.on_read(vec![], Some(Ok(5))),
        StreamAction::ReadOutput
    );
    assert_eq!(stream.offset(), 2);
    assert_eq!(
        stream.on_output(b"dio".to_vec()),
        StreamAction::Yield {
            bytes: b"dio".to_vec()
        }
    );
    assert_eq!(stream.offset(), 5);
    assert_eq!(stream.on_read(vec![], Some(Ok(5))), StreamAction::End);
}

#[test]
fn a_stream_whose_output_is_gone_fails() {
    let mut stream = DownloadStream::start();
    assert_eq!(
        stream.on_read(vec![], Some(Ok(5))),
        StreamAction::ReadOutput
    );
    assert_eq!(
        stream.on_output(vec![]),
        StreamAction::Fail {
            message: "downloaded media is no longer available".to_string()
        }
    );
}

#[test]
fn a_chunk_behind_a_gap_is_not_sent() {
    let mut stream = DownloadStream::start();
    stream.on_read(b"au".to_vec(), None);
    let far = StreamEvent::Chunk {
        chunk: chunk(3, b"io"),
    };
    assert_eq!(stream.on_event(far), StreamAction::Read);
    assert_eq!(stream.offset(), 2);
    let next = StreamEvent::Chunk {
        chunk: chunk(2, b"dio"),
    };
    assert_eq!(
        stream.on_event(next),
        StreamAction::Yield {
            bytes: b"dio".to_vec()
        }
    );
}

fn remove(path: &str) -> TransferAction {
    TransferAction::Remove {
        path: path.to_string(),
    }
}

fn failure(message: &str) -> TransferAction {
    TransferAction::Finish {
        result: Err(message.to_string()),
    }
}

/// A transfer that waits for the first output.
fn reading() -> DownloadTransfer {
    let (mut transfer, first) =
        DownloadTransfer::start("url".to_string(), "/m/item.m4a".to_string());
    assert_eq!(
        first,
        TransferAction::MakeDirectory {
            path: "/m".to_string()
        }
    );
    for expected in [
        remove("/m/item.m4a"),
        remove("/m/item.m4a.download.m4a"),
        TransferAction::Spawn,
        TransferAction::Create {
            path: "/m/item.m4a.download.m4a".to_string(),
        },
        TransferAction::Read,
    ] {
        assert_eq!(transfer.advance(TransferEvent::Succeeded), expected);
    }
    assert!(transfer.is_reading());
    transfer
}

fn output(transfer: &mut DownloadTransfer, bytes: &[u8]) -> TransferAction {
    assert_eq!(
        transfer.advance(TransferEvent::Output {
            bytes: bytes.to_vec()
        }),
        TransferAction::Store {
            bytes: bytes.to_vec()
        }
    );
    let announced = transfer.advance(TransferEvent::Succeeded);
    assert_eq!(
        transfer.advance(TransferEvent::Succeeded),
        TransferAction::Read
    );
    announced
}

fn end_of_output(transfer: &mut DownloadTransfer, succeeded: bool, stderr: &[&str]) -> TransferAction {
    assert_eq!(
        transfer.advance(TransferEvent::Output { bytes: vec![] }),
        TransferAction::Flush
    );
    assert_eq!(
        transfer.advance(TransferEvent::Succeeded),
        TransferAction::AwaitExit
    );
    transfer.advance(TransferEvent::Exited {
        succeeded,
        stderr: stderr.iter().map(|line| line.to_string()).collect(),
    })
}

#[test]
fn successful_download_promotes_temp_cache() {
    let mut transfer = reading();
    assert_eq!(
        output(&mut transfer, b"au"),
        TransferAction::Announce {
            chunk: chunk(0, b"au")
        }
    );
    assert_eq!(
        output(&mut transfer, b"dio"),
        TransferAction::Announce {
            chunk: chunk(2, b"dio")
        }
    );
    assert_eq!(transfer.offset(), 5);
    assert_eq!(
        end_of_output(&mut transfer, true, &["ignored"]),
        TransferAction::Promote {
            from: "/m/item.m4a.download.m4a".to_string(),
            to: "/m/item.m4a".to_string()
        }
    );
    assert_eq!(
        transfer.advance(TransferEvent::Succeeded),
        TransferAction::Finish { result: Ok(5) }
    );
}

#[test]
fn failed_download_does_not_promote_partial_cache() {
    let mut transfer = reading();
    output(&mut transfer, b"au");
    assert_eq!(
        end_of_output(&mut transfer, false, &["  first", "last "]),
        remove("/m/item.m4a.download.m4a")
    );
    assert_eq!(
        transfer.advance(TransferEvent::Succeeded),
        failure("yt-dlp failed for url: first\nlast")
    );
    let mut transfer = reading();
    end_of_output(&mut transfer, false, &[]);
    assert_eq!(
        transfer.advance(TransferEvent::Succeeded),
        failure("yt-dlp failed for url: ")
    );
}

#[test]
fn shutdown_cancels_active_download_and_removes_partial_cache() {
    let mut lifecycle = life(DisconnectBehavior::Continue, Duration::from_secs(0));
    lifecycle.attach_client();
    lifecycle.shut_down();
    assert!(lifecycle.is_cancelled());

    let mut transfer = reading();
    output(&mut transfer, b"au");
    assert_eq!(
        transfer.advance(TransferEvent::Cancelled),
        TransferAction::Kill
    );
    assert_eq!(
        transfer.advance(TransferEvent::Succeeded),
        TransferAction::Flush
    );
    assert_eq!(
        transfer.advance(TransferEvent::Succeeded),
        TransferAction::AwaitExit
    );
    assert_eq!(
        transfer.advance(TransferEvent::Exited {
            succeeded: true,
            stderr: vec![]
        }),
        remove("/m/item.m4a.download.m4a")
    );
    assert_eq!(
        transfer.advance(TransferEvent::Succeeded),
        failure("yt-dlp cancelled during shutdown")
    );

    let mut stream = DownloadStream::start();
    assert_eq!(
        stream.on_event(StreamEvent::ShutDown),
        StreamAction::RemoveAndEnd
    );
}

#[test]
fn transfers_tell_what_could_not_be_done() {
    let failed = || TransferEvent::Failed {
        reason: "disk full".to_string(),
    };
    let start = || DownloadTransfer::start("url".to_string(), "/m/a.m4a".to_string()).0;
    let temp = "/m/a.m4a.download.m4a";
    for (steps, message) in [
        (0, "disk full".to_string()),
        (1, "failed to remove /m/a.m4a".to_string()),
        (2, format!("failed to remove {temp}")),
        (3, "failed to execute yt-dlp for url".to_string()),
        (4, format!("failed to create {temp}")),
        (5, "failed to read yt-dlp stdout for url".to_string()),
    ] {
        let mut transfer = start();
        for _ in 0..steps {
            transfer.advance(TransferEvent::Succeeded);
        }
        assert_eq!(transfer.advance(failed()), failure(&message));
    }
    let mut transfer = reading();
    transfer.advance(TransferEvent::Output { bytes: vec![1] });
    assert_eq!(
        transfer.advance(failed()),
        failure("failed to write /m/item.m4a.download.m4a")
    );
    let mut transfer = reading();
    transfer.advance(TransferEvent::Output { bytes: vec![] });
    assert_eq!(
        transfer.advance(failed()),
        failure("failed to flush /m/item.m4a.download.m4a")
    );
    let mut transfer = reading();
    transfer.advance(TransferEvent::Output { bytes: vec![] });
    transfer.advance(TransferEvent::Succeeded);
    assert_eq!(
        transfer.advance(failed()),
        failure("failed to wait for yt-dlp for url")
    );
    let mut transfer = reading();
    end_of_output(&mut transfer, true, &[]);
    assert_eq!(
        transfer.advance(failed()),
        failure("failed to move /m/item.m4a.download.m4a to /m/item.m4a")
    );
    let mut transfer = reading();
    end_of_output(&mut transfer, false, &[]);
    assert_eq!(
        transfer.advance(failed()),
        failure("failed to remove /m/item.m4a.download.m4a")
    );
}

#[test]
fn transfers_need_a_file_in_a_directory() {
    let (_, action) = DownloadTransfer::start("url".to_string(), "/".to_string());
    assert_eq!(action, failure("download path has no parent"));
    let (mut transfer, action) = DownloadTransfer::start("url".to_string(), "/m/..".to_string());
    assert_eq!(
        action,
        TransferAction::MakeDirectory {
            path: "/m".to_string()
        }
    );
    assert_eq!(
        transfer.advance(TransferEvent::Succeeded),
        remove("/m/..")
    );
    assert_eq!(
        transfer.advance(TransferEvent::Succeeded),
        failure("download path has no valid file name")
    );
    let (transfer, action) = DownloadTransfer::start("url".to_string(), "a.m4a".to_string());
    assert_eq!(
        action,
        TransferAction::MakeDirectory {
            path: String::new()
        }
    );
    assert_eq!(transfer.temp_path(), "a.m4a.download.m4a");
}

#[test]
fn immediate_disconnect_cancel_stops_download_and_removes_partial_cache() {
    let mut lifecycle = life(DisconnectBehavior::Cancel, Duration::from_secs(0));
    lifecycle.attach_client();
    assert_eq!(lifecycle.detach_client(), DetachAction::Cancel);
    assert!(lifecycle.is_cancelled());
}

#[test]
fn delayed_disconnect_cancel_waits_for_grace_period() {
    let mut lifecycle = life(DisconnectBehavior::DelayCancel, Duration::from_millis(200));
    lifecycle.attach_client();
    assert_eq!(
        lifecycle.detach_client(),
        DetachAction::DelayCancel { generation: 2 }
    );
    assert!(!lifecycle.is_cancelled());
    assert_eq!(
        lifecycle.grace_nanos(),
        Duration::from_millis(200).as_nanos()
    );
    lifecycle.mark_completed();
    assert!(!lifecycle.grace_elapsed(2));
    assert!(!lifecycle.is_cancelled());
}

#[test]
fn delayed_disconnect_cancel_stops_download_after_grace_period() {
    let mut lifecycle = life(DisconnectBehavior::DelayCancel, Duration::from_millis(10));
    lifecycle.attach_client();
    lifecycle.detach_client();
    assert!(lifecycle.grace_elapsed(2));
    assert!(lifecycle.is_cancelled());
}

#[test]
fn reconnect_during_grace_prevents_disconnect_cancel() {
    let mut lifecycle = life(DisconnectBehavior::DelayCancel, Duration::from_millis(80));
    lifecycle.attach_client();
    lifecycle.detach_client();
    lifecycle.attach_client();
    assert!(!lifecycle.grace_elapsed(2));
    assert_eq!(
        lifecycle.detach_client(),
        DetachAction::DelayCancel { generation: 4 }
    );
    assert!(!lifecycle.grace_elapsed(2));
    assert!(!lifecycle.is_cancelled());
}

#[test]
fn disconnect_cancel_waits_for_all_clients_to_detach() {
    let mut lifecycle = life(DisconnectBehavior::Cancel, Duration::from_secs(0));
    lifecycle.attach_client();
    lifecycle.attach_client();
    assert_eq!(lifecycle.clients(), 2);
    assert_eq!(lifecycle.detach_client(), DetachAction::Keep);
    assert!(!lifecycle.is_cancelled());
    lifecycle.mark_completed();
    assert_eq!(lifecycle.detach_client(), DetachAction::Keep);
    assert!(!lifecycle.is_cancelled());
    assert_eq!(lifecycle.generation(), 4);
}

#[test]
fn continue_disconnect_behavior_completes_cache_without_clients() {
    let mut lifecycle = life(DisconnectBehavior::Continue, Duration::from_secs(0));
    lifecycle.attach_client();
    assert_eq!(lifecycle.detach_client(), DetachAction::Keep);
    assert!(!lifecycle.is_cancelled());
}

#[test]
fn a_completed_download_cannot_be_cancelled() {
    let mut lifecycle = life(DisconnectBehavior::Cancel, Duration::from_secs(0));
    lifecycle.mark_completed();
    assert!(!lifecycle.cancel());
    assert!(!lifecycle.is_cancelled());
}

#[test]
fn detaching_nobody_wraps_the_count() {
    let mut lifecycle = life(DisconnectBehavior::Cancel, Duration::from_secs(0));
    assert_eq!(lifecycle.detach_client(), DetachAction::Keep);
    assert_eq!(lifecycle.clients(), usize::MAX);
    assert_eq!(lifecycle.generation(), 0);
}

#[test]
fn chunks_are_cut_to_what_was_not_sent() {
    let mut offset = 3;
    assert_eq!(trim_chunk_to_offset(chunk(0, b"abc"), &mut offset), None);
    assert_eq!(offset, 3);
    assert_eq!(
        trim_chunk_to_offset(chunk(1, b"bcdef"), &mut offset),
        Some(b"def".to_vec())
    );
    assert_eq!(offset, 6);
    assert_eq!(
        trim_chunk_to_offset(chunk(6, b"g"), &mut offset),
        Some(b"g".to_vec())
    );
    assert_eq!(offset, 7);
}

#[test]
fn the_last_twenty_lines_are_kept() {
    let mut tail = Vec::new();
    for i in 0..25 {
        keep_stderr_line(&mut tail, format!("{i}"));
    }
    assert_eq!(tail.len(), 20);
    assert_eq!(tail[0], "5");
    assert_eq!(tail[19], "24");
}
