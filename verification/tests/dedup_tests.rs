use gpu_runtime::dedup::dedup_content;
use gpu_runtime::timecode::{ms_to_timestamp, timestamp_to_ms};

#[test]
fn dedups_srt_and_timestamps() {
    assert_eq!(dedup_content("", 500).unwrap(), None);

    let content = "1\n00:00:00,500 --> 00:00:00,900\n \n\n2\n00:00:01,000 --> 00:00:02,000\nHello\n\n3\n00:00:02,100 --> 00:00:03,000\nhello\n\n4\n00:00:03,600 --> 00:00:04,000\nWorld\n\n";
    let output = dedup_content(content, 500).unwrap().unwrap();
    assert!(output.to_lowercase().contains("hello"));
    assert!(output.contains("-->"));

    assert_eq!(timestamp_to_ms("00:00:01,500").unwrap(), 1500);
    assert!(timestamp_to_ms("bad").is_err());
    assert_eq!(ms_to_timestamp(1500), "00:00:01,500");
}

#[test]
fn dedup_srt_reports_invalid_timestamps() {
    assert!(dedup_content("1\n00:00:bad --> 00:00:01,000\nHello\n\n", 500).is_err());
    assert!(dedup_content("1\n00:00:01,000 --> 00:00:bad\nHello\n\n", 500).is_err());
}

#[test]
fn merges_adjacent_cues_within_tolerance() {
    // tolerance 0.5 s: the case-insensitive duplicate merges into one cue
    // keeping the first text and start and the larger end time
    let content = "1\n00:00:01,000 --> 00:00:02,000\nHello\n\n2\n00:00:02,100 --> 00:00:03,000\nhello\n\n";
    let output = dedup_content(content, 500).unwrap().unwrap();
    assert_eq!(output, "1\n00:00:01,000 --> 00:00:03,000\nHello\n");
}

#[test]
fn keeps_cues_beyond_tolerance() {
    let content = "1\n00:00:01,000 --> 00:00:02,000\nHello\n\n2\n00:00:02,600 --> 00:00:03,000\nhello\n\n";
    let output = dedup_content(content, 500).unwrap().unwrap();
    assert_eq!(
        output,
        "1\n00:00:01,000 --> 00:00:02,000\nHello\n\n2\n00:00:02,600 --> 00:00:03,000\nhello\n"
    );
}

#[test]
fn dedup_twice_is_identity() {
    let inputs = [
        "1\n00:00:01,000 --> 00:00:02,000\nHello\n\n2\n00:00:02,100 --> 00:00:03,000\nhello\n\n",
        "1\n00:00:00,000 --> 00:00:01,000\nA line\nsecond line\n\n2\n00:00:01,100 --> 00:00:02,000\na  LINE\n second line \n\n",
        "not a cue\n\n1\n00:00:01,000 --> 00:00:02,000\nKeep\n\n",
        "\r\n1\r\n00:00:01,000 --> 00:00:02,000\r\nText with \r\ncarriage returns\r\n\r\n",
    ];
    for content in inputs {
        let once = dedup_content(content, 600).unwrap().unwrap();
        match dedup_content(&once, 600).unwrap() {
            Some(twice) => assert_eq!(once, twice),
            None => {}
        }
    }
}

#[test]
fn blank_and_unparseable_blocks() {
    // whitespace-only content writes nothing
    assert_eq!(dedup_content("  \n \n", 500).unwrap(), None);
    // a block without a timing line is dropped silently
    let output = dedup_content("junk\n\n1\n00:00:01,000 --> 00:00:02,000\nHello\n\n", 500)
        .unwrap()
        .unwrap();
    assert_eq!(output, "1\n00:00:01,000 --> 00:00:02,000\nHello\n");
    // a cue whose text is blank is dropped entirely
    let output = dedup_content(
        "1\n00:00:00,100 --> 00:00:00,200\n \n\n2\n00:00:01,000 --> 00:00:02,000\nKept\n\n",
        500,
    )
    .unwrap()
    .unwrap();
    assert_eq!(output, "1\n00:00:01,000 --> 00:00:02,000\nKept\n");
}

#[test]
fn reindexes_merged_cues_from_one() {
    let content = "7\n00:00:01,000 --> 00:00:02,000\nOne\n\n9\n00:00:05,000 --> 00:00:06,000\nTwo\n\n11\n00:00:08,000 --> 00:00:09,000\nThree\n\n";
    let output = dedup_content(content, 500).unwrap().unwrap();
    assert_eq!(
        output,
        "1\n00:00:01,000 --> 00:00:02,000\nOne\n\n2\n00:00:05,000 --> 00:00:06,000\nTwo\n\n3\n00:00:08,000 --> 00:00:09,000\nThree\n"
    );
}
