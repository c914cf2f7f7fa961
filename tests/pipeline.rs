use voice_pipeline::queue::FrameQueue;
use voice_pipeline::recognizer::{downmix, FinalResult, StreamingOptions};
use voice_pipeline::segmenter::{PassThrough, SegmenterError, WindowAccumulator};
use voice_pipeline::session::{
    source_config, Command, Decoded, DeviceChoice, Event, FatalError, Phase, Report, Session,
    SourceConfig,
};
use voice_pipeline::sink::{score_words, TranscriptSink, WordPool, WordScore};
use voice_pipeline::text::{contains_phrase, is_space_char, split_words};

fn pool_of(words: &[&str]) -> WordPool {
    let mut pool = WordPool::new();
    for w in words {
        pool.insert(w.to_string());
    }
    pool
}

fn strings(words: &[&str]) -> Vec<String> {
    words.iter().map(|w| w.to_string()).collect()
}

#[test]
fn pass_through_emits_frames_in_order() {
    let seg = PassThrough::new();
    let frames: Vec<Vec<i16>> = vec![vec![1, 2, 3], vec![], vec![-4], vec![5, 6]];
    let mut emitted: Vec<Vec<i16>> = Vec::new();
    for f in &frames {
        let out = seg.push(f.clone());
        assert_eq!(out.len(), 1);
        emitted.extend(out);
    }
    assert_eq!(emitted, frames);
}

#[test]
fn window_counts_full_segments_and_flushes_remainder() {
    let mut acc = WindowAccumulator::with_window(4).unwrap();
    let frames: Vec<Vec<i16>> = vec![vec![1, 2, 3], vec![4, 5], vec![6, 7, 8, 9, 10, 11, 12], vec![13]];
    let mut segments: Vec<Vec<i16>> = Vec::new();
    for f in &frames {
        segments.extend(acc.push(f));
    }
    // 13 samples in windows of 4: three full segments and one of 1.
    assert_eq!(segments.len(), 13 / 4);
    assert_eq!(segments, vec![vec![1, 2, 3, 4], vec![5, 6, 7, 8], vec![9, 10, 11, 12]]);
    assert_eq!(acc.flush(), Some(vec![13]));
    assert_eq!(acc.flush(), None);
}

#[test]
fn window_exact_multiple_leaves_nothing_to_flush() {
    let mut acc = WindowAccumulator::with_window(2).unwrap();
    let out = acc.push(&vec![1, 2, 3, 4, 5, 6]);
    assert_eq!(out, vec![vec![1, 2], vec![3, 4], vec![5, 6]]);
    assert_eq!(acc.flush(), None);
}

#[test]
fn window_from_duration() {
    let acc = WindowAccumulator::new(16000, 1, 1).unwrap();
    assert_eq!(acc.window(), 16000);
    let acc = WindowAccumulator::new(8000, 2, 3).unwrap();
    assert_eq!(acc.window(), 48000);
    assert_eq!(WindowAccumulator::new(0, 1, 1).err(), Some(SegmenterError::ZeroSampleRate));
    assert_eq!(WindowAccumulator::new(16000, 0, 1).err(), Some(SegmenterError::ZeroChannels));
    assert_eq!(WindowAccumulator::new(16000, 1, 0).err(), Some(SegmenterError::ZeroWindow));
    assert_eq!(WindowAccumulator::with_window(0).err(), Some(SegmenterError::ZeroWindow));
}

#[test]
fn window_too_large_is_refused() {
    let r = WindowAccumulator::new(u32::MAX, u16::MAX, u32::MAX);
    if usize::MAX as u128 >= (u32::MAX as u128) * (u16::MAX as u128) * (u32::MAX as u128) {
        assert!(r.is_ok());
    } else {
        assert_eq!(r.err(), Some(SegmenterError::WindowTooLarge));
    }
}

#[test]
fn partials_are_deduplicated() {
    let mut sink = TranscriptSink::new("stop".to_string(), None);
    let mut shown: Vec<String> = Vec::new();
    for p in ["a", "a", "b", "b", "b", "c"] {
        if let Some(t) = sink.on_partial(p.to_string()) {
            shown.push(t);
        }
    }
    assert_eq!(shown, strings(&["a", "b", "c"]));
}

#[test]
fn empty_first_partial_is_not_shown() {
    let mut sink = TranscriptSink::new("stop".to_string(), None);
    assert_eq!(sink.on_partial(String::new()), None);
    assert_eq!(sink.on_partial("x".to_string()), Some("x".to_string()));
    assert_eq!(sink.on_partial(String::new()), Some(String::new()));
}

#[test]
fn word_accuracy_counts_known_words() {
    let pool = pool_of(&["cat", "fish"]);
    let score = score_words("cat dog fish", &pool);
    assert_eq!(score, WordScore::Rate { known: 2, total: 3 });
    if let WordScore::Rate { known, total } = score {
        let rate = known as f64 / total as f64;
        assert!((rate - 0.667).abs() < 0.001);
    }
}

#[test]
fn word_accuracy_without_words() {
    let pool = pool_of(&["cat"]);
    assert_eq!(score_words("", &pool), WordScore::NoWords);
    assert_eq!(score_words(" \t\n ", &pool), WordScore::NoWords);
}

#[test]
fn word_accuracy_counts_repeats() {
    let pool = pool_of(&["go"]);
    assert_eq!(score_words("go go  stay\tgo", &pool), WordScore::Rate { known: 3, total: 4 });
}

#[test]
fn final_result_holding_stop_phrase_stops() {
    let sink = TranscriptSink::new("stop".to_string(), Some(pool_of(&["please", "now"])));
    let result = FinalResult::from_ranked(strings(&["please stop now"])).unwrap();
    let report = sink.on_final(&result);
    assert!(report.stop);
    assert_eq!(report.text, "please stop now");
    assert_eq!(report.score, Some(WordScore::Rate { known: 2, total: 3 }));
    let result = FinalResult::from_ranked(strings(&["please Stop now"])).unwrap();
    assert!(!sink.on_final(&result).stop);
}

#[test]
fn ranked_hypotheses_keep_order() {
    let r = FinalResult::from_ranked(strings(&["best", "second", "third"])).unwrap();
    assert_eq!(r.text, "best");
    assert_eq!(r.alternatives, strings(&["second", "third"]));
    assert!(FinalResult::from_ranked(Vec::new()).is_none());
}

#[test]
fn session_stops_on_stop_phrase() {
    let sink = TranscriptSink::new("stop".to_string(), Some(pool_of(&["please"])));
    let mut session = Session::new(sink);
    assert_eq!(session.phase(), Phase::Idle);
    assert_eq!(session.step(Event::SetUp).command, Command::StartStream);
    assert_eq!(session.step(Event::StreamStarted).command, Command::ReadFrame);
    assert!(session.should_continue());

    let step = session.step(Event::Frame(Decoded::Running("please".to_string())));
    assert_eq!(step.command, Command::ReadFrame);
    assert!(matches!(&step.reports[..], [Report::Partial(t)] if t == "please"));
    let step = session.step(Event::Frame(Decoded::Running("please".to_string())));
    assert!(step.reports.is_empty());

    let step = session.step(Event::Frame(Decoded::Finalized(strings(&["please stop now"]))));
    assert_eq!(step.command, Command::StopStream);
    assert!(matches!(&step.reports[..], [Report::Final(r)] if r.stop && r.text == "please stop now"));
    assert!(!session.should_continue());
    assert_eq!(session.phase(), Phase::Stopped);

    let step = session.step(Event::Frame(Decoded::Running("more".to_string())));
    assert_eq!(step.command, Command::Exit);
    assert!(step.reports.is_empty());
}

#[test]
fn session_recovers_from_frame_errors() {
    let mut session = Session::new(TranscriptSink::new("stop".to_string(), None));
    session.step(Event::SetUp);
    session.step(Event::StreamStarted);
    let step = session.step(Event::Frame(Decoded::Failed));
    assert_eq!(step.command, Command::ReadFrame);
    assert!(matches!(&step.reports[..], [Report::DecodeFailed]));
    let step = session.step(Event::ReadFailed);
    assert_eq!(step.command, Command::ReadFrame);
    assert!(matches!(&step.reports[..], [Report::ReadFailed]));
    let step = session.step(Event::Frame(Decoded::Finalized(Vec::new())));
    assert_eq!(step.command, Command::ReadFrame);
    assert!(matches!(&step.reports[..], [Report::DecodeFailed]));
    assert_eq!(session.step(Event::Interrupted).command, Command::StopStream);
    assert_eq!(session.step(Event::ReadFailed).command, Command::Exit);
}

#[test]
fn nonexistent_device_is_fatal() {
    assert_eq!(source_config(5, 2, 512), Err(FatalError::DeviceUnavailable));
    assert_eq!(source_config(-2, 2, 512), Err(FatalError::DeviceUnavailable));
    assert_eq!(source_config(-1, 0, 512), Err(FatalError::DeviceUnavailable));
    assert_eq!(source_config(0, 2, 0), Err(FatalError::InvalidFrameLength));
    assert_eq!(
        source_config(-1, 2, 512),
        Ok(SourceConfig { device: DeviceChoice::Default, frame_length: 512 })
    );
    assert_eq!(
        source_config(1, 2, 512),
        Ok(SourceConfig { device: DeviceChoice::Index(1), frame_length: 512 })
    );

    let mut session = Session::new(TranscriptSink::new("stop".to_string(), None));
    let step = session.step(Event::Fatal(FatalError::DeviceUnavailable));
    assert_eq!(step.command, Command::Exit);
    assert_eq!(session.phase(), Phase::Failed(FatalError::DeviceUnavailable));
    assert_eq!(session.step(Event::SetUp).command, Command::Exit);
    assert_eq!(session.step(Event::StreamStarted).command, Command::Exit);
    assert!(!session.should_continue());
}

#[test]
fn downmix_averages_channels() {
    assert_eq!(downmix(&vec![1, 3, -2, -5, 32767, 32767], 2), Some(vec![2, -4, 32767]));
    assert_eq!(downmix(&vec![-32768, -32768, -32768], 3), Some(vec![-32768]));
    assert_eq!(downmix(&vec![7, 8, 9], 1), Some(vec![7, 8, 9]));
    assert_eq!(downmix(&vec![1, 2, 3], 2), None);
    assert_eq!(downmix(&vec![1, 2], 0), None);
}

#[test]
fn space_matches_std() {
    for c in (0u32..=0x10FFFF).filter_map(char::from_u32) {
        assert_eq!(is_space_char(c), c.is_whitespace(), "{:?}", c);
    }
}

#[test]
fn split_matches_std() {
    for s in ["", "one", "  two  words ", "a\u{3000}b\u{a0}c\nd", "\t\r\n", "x  y"] {
        let expected: Vec<String> = s.split_whitespace().map(|w| w.to_string()).collect();
        assert_eq!(split_words(s), expected);
    }
}

#[test]
fn phrase_search() {
    assert!(contains_phrase("please stop now", "stop"));
    assert!(contains_phrase("stop", "stop"));
    assert!(!contains_phrase("sto", "stop"));
    assert!(!contains_phrase("please Stop", "stop"));
    assert!(contains_phrase("anything", ""));
    assert!(contains_phrase("é stop", "stop"));
}

#[test]
fn word_pool_reads_lines() {
    let pool = WordPool::from_lines("cat\r\nfish\n\ndog\r");
    assert!(pool.contains(&"cat".to_string()));
    assert!(pool.contains(&"fish".to_string()));
    assert!(pool.contains(&String::new()));
    assert!(pool.contains(&"dog\r".to_string()));
    assert!(!pool.contains(&"dog".to_string()));
    assert!(!pool.contains(&"cat\r".to_string()));
    let pool = WordPool::from_lines("one\n");
    assert!(pool.contains(&"one".to_string()));
    assert!(!pool.contains(&String::new()));
    let pool = WordPool::from_lines("");
    assert!(!pool.contains(&String::new()));
}

#[test]
fn queue_keeps_order_and_counts_drops() {
    assert!(FrameQueue::new(0).is_none());
    let mut q = FrameQueue::new(2).unwrap();
    assert!(q.offer(vec![1]));
    assert!(q.offer(vec![2, 2]));
    assert!(!q.offer(vec![3]));
    assert!(!q.offer(vec![4]));
    assert_eq!(q.dropped(), 2);
    assert_eq!(q.len(), 2);
    assert_eq!(q.take(), Some(vec![1]));
    assert!(q.offer(vec![5]));
    assert_eq!(q.take(), Some(vec![2, 2]));
    assert_eq!(q.take(), Some(vec![5]));
    assert_eq!(q.take(), None);
    assert_eq!(q.dropped(), 2);
}

#[test]
fn ranked_options() {
    let o = StreamingOptions::ranked();
    assert_eq!(o.max_alternatives, 10);
    assert!(o.word_timings && o.partial_word_timings);
}
