use m4b_extractor::commands::{
    convert_to_mp3, has_extension, replace_extension, settle_conversion, settle_transcode,
    transcode_args, CommandOutcome, TranscodeJob, TranscodeVerdict, COMPRESSED_EXTENSION,
    CONTAINER_EXTENSION,
};

fn names(list: &[&str]) -> Vec<String> {
    list.iter().map(|name| name.to_string()).collect()
}

fn job(source: &str, target: &str, quality: u8) -> TranscodeJob {
    TranscodeJob { source: source.to_string(), target: target.to_string(), quality }
}

#[test]
fn segments_are_planned_in_listing_order() {
    let listing = names(&[
        "2_Ch_1_.m4b",
        "metadata.json",
        "1_Intro.m4b",
        "tags.yaml",
        "folder.jpg",
        "3_done.mp3",
    ]);
    assert_eq!(
        convert_to_mp3(&listing, 2),
        vec![job("2_Ch_1_.m4b", "2_Ch_1_.mp3", 2), job("1_Intro.m4b", "1_Intro.mp3", 2)]
    );
}

#[test]
fn nothing_is_planned_without_segments() {
    assert_eq!(convert_to_mp3(&names(&[]), 5), vec![]);
    assert_eq!(convert_to_mp3(&names(&["metadata.json", "m4b", ".m4b", "a.m4b.bak"]), 5), vec![]);
}

#[test]
fn only_the_last_extension_counts() {
    assert_eq!(
        convert_to_mp3(&names(&["1_a.b.m4b", "2_Mr. Smith.m4b", "3_x.M4B", "..m4b"]), 9),
        vec![
            job("1_a.b.m4b", "1_a.b.mp3", 9),
            job("2_Mr. Smith.m4b", "2_Mr. Smith.mp3", 9),
            job("..m4b", "..mp3", 9),
        ]
    );
}

#[test]
fn extension_is_what_follows_the_last_dot() {
    assert!(has_extension("a.m4b", "m4b"));
    assert!(has_extension("a.b.m4b", "m4b"));
    assert!(has_extension("a.", ""));
    assert!(has_extension("é.m4b", "m4b"));
    assert!(!has_extension("a.m4b", "mp3"));
    assert!(!has_extension("a.m4b", "4b"));
    assert!(!has_extension("am4b", "m4b"));
    assert!(!has_extension(".m4b", "m4b"));
    assert!(!has_extension("", ""));
    assert!(!has_extension("a", ""));
    assert!(!has_extension("a.m4b.txt", "m4b"));
}

#[test]
fn replacing_the_extension_keeps_the_stem() {
    assert_eq!(replace_extension("1_Intro.m4b", "mp3"), "1_Intro.mp3");
    assert_eq!(replace_extension("a.b.m4b", "mp3"), "a.b.mp3");
    assert_eq!(replace_extension("plain", "mp3"), "plain.mp3");
    assert_eq!(replace_extension(".hidden", "mp3"), ".hidden.mp3");
    assert_eq!(replace_extension("a.", "mp3"), "a.mp3");
    assert_eq!(replace_extension("été.m4b", "mp3"), "été.mp3");
    assert_eq!(replace_extension("", "mp3"), ".mp3");
}

#[test]
fn extensions_are_fixed() {
    assert_eq!(CONTAINER_EXTENSION, "m4b");
    assert_eq!(COMPRESSED_EXTENSION, "mp3");
}

#[test]
fn transcode_arguments_carry_the_quality() {
    assert_eq!(
        transcode_args("out/1_Intro.m4b", "out/1_Intro.mp3", 2),
        vec![
            "-loglevel", "error", "-y", "-i", "out/1_Intro.m4b", "-acodec", "libmp3lame",
            "-qscale:a", "2", "out/1_Intro.mp3",
        ]
    );
    assert_eq!(transcode_args("a", "b", 255)[8], "255");
    assert_eq!(transcode_args("a", "b", 0)[8], "0");
}

#[test]
fn failed_conversion_keeps_its_source_only() {
    let jobs = convert_to_mp3(&names(&["1_Intro.m4b", "2_Ch_1_.m4b"]), 2);
    let verdicts: Vec<TranscodeVerdict> = jobs
        .iter()
        .zip([CommandOutcome::Failed, CommandOutcome::Succeeded])
        .map(|(job, outcome)| settle_transcode(&job.source, outcome))
        .collect();
    assert_eq!(
        verdicts,
        vec![
            TranscodeVerdict::KeepSource {
                warning: "Conversion failed for '1_Intro.m4b'".to_string()
            },
            TranscodeVerdict::RemoveSource,
        ]
    );
}

#[test]
fn encoder_that_cannot_start_keeps_the_source() {
    assert_eq!(
        settle_transcode("out/1_Intro.m4b", CommandOutcome::NotStarted),
        TranscodeVerdict::KeepSource {
            warning: "Failed to run ffmpeg for 'out/1_Intro.m4b'".to_string()
        }
    );
}

#[test]
fn jobs_share_no_file() {
    let listing = names(&["1_a.m4b", "1_a.mp3", "2_b.m4b", "1_a.m4b.m4b", "3_c.b.m4b", "tags.yaml"]);
    let jobs = convert_to_mp3(&listing, 4);
    assert_eq!(jobs.len(), 4);
    for (i, one) in jobs.iter().enumerate() {
        assert!(has_extension(&one.source, "m4b"));
        assert!(has_extension(&one.target, "mp3"));
        assert_eq!(one.quality, 4);
        for (j, other) in jobs.iter().enumerate() {
            assert_ne!(one.target, other.source);
            if i != j {
                assert_ne!(one.source, other.source);
                assert_ne!(one.target, other.target);
            }
        }
    }
}

#[test]
fn failed_conversions_do_not_fail_the_step() {
    let verdicts = vec![
        TranscodeVerdict::KeepSource { warning: "Conversion failed for 'a.m4b'".to_string() },
        TranscodeVerdict::RemoveSource,
        TranscodeVerdict::KeepSource { warning: "Failed to run ffmpeg for 'c.m4b'".to_string() },
    ];
    assert_eq!(settle_conversion(Some(&verdicts)), CommandOutcome::Succeeded);
    assert_eq!(settle_conversion(Some(&vec![])), CommandOutcome::Succeeded);
    assert_eq!(settle_conversion(Some(&vec![TranscodeVerdict::RemoveSource])), CommandOutcome::Succeeded);
}

#[test]
fn unlisted_directory_fails_the_step() {
    assert_eq!(settle_conversion(None), CommandOutcome::Failed);
}
