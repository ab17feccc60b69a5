use std::io::Read;
use tiny_beast_dictionary::download::ChunkData;
use tiny_beast_dictionary::pipeline::{process_archive, run_pipeline, PipelineError};
use tiny_beast_dictionary::registry::OfflineDict;

fn entry(code: &str, name: &str) -> OfflineDict {
    OfflineDict {
        code: code.to_string(),
        name: name.to_string(),
        url: String::new(),
        length_mb: 1,
    }
}

fn tar_xz_archive(file_name: &str, content: &[u8]) -> Vec<u8> {
    let mut tar_bytes: Vec<u8> = Vec::new();
    {
        let mut builder = tar::Builder::new(&mut tar_bytes);
        let mut header = tar::Header::new_gnu();
        header.set_size(content.len() as u64);
        builder.append_data(&mut header, file_name, content).unwrap();
        builder.finish().unwrap();
    }
    let mut out = Vec::new();
    let mut encoder = xz::read::XzEncoder::new(&tar_bytes[..], 6);
    encoder.read_to_end(&mut out).unwrap();
    out
}

const FR_DUMP: &str = "\"word\": \"chat\", \"lang\": \"French\", \"lang_code\": \"fr\", \"pos\":\"noun\"}\n\"word\": \"chien\", \"lang\": \"French\", \"lang_code\": \"fr\", \"pos\":\"noun\"}\n";

#[test]
fn archive_processes_to_a_dictionary() {
    let archive = tar_xz_archive("incorrect_fr.json", FR_DUMP.as_bytes());
    let lang = entry("fr", "French");
    let out = process_archive(&archive, &lang, 4).unwrap();
    assert_eq!(
        out.text,
        "{\"chat\":{\"pos\":\"noun\"},\"chien\":{\"pos\":\"noun\"}}"
    );
    assert_eq!(
        out.dictionary.get("chat"),
        Some("{\"pos\":\"noun\"}".to_string())
    );
}

#[test]
fn processing_identical_archives_twice_yields_identical_dictionaries() {
    let archive = tar_xz_archive("incorrect_fr.json", FR_DUMP.as_bytes());
    let lang = entry("fr", "French");
    let first = process_archive(&archive, &lang, 1).unwrap();
    let second = process_archive(&archive, &lang, 4).unwrap();
    assert_eq!(first.text, second.text);
    assert_eq!(first.dictionary.entries, second.dictionary.entries);
}

#[test]
fn garbage_bytes_are_a_corrupt_archive() {
    let lang = entry("fr", "French");
    let r = process_archive(&vec![0u8, 1, 2, 3, 4, 5], &lang, 4);
    assert_eq!(r.err(), Some(PipelineError::Corrupt));
}

#[test]
fn archive_without_the_dump_file_is_corrupt() {
    let archive = tar_xz_archive("other.json", b"{}");
    let lang = entry("fr", "French");
    let r = process_archive(&archive, &lang, 4);
    assert_eq!(r.err(), Some(PipelineError::Corrupt));
}

#[test]
fn invalid_utf8_dump_is_a_decode_error() {
    let archive = tar_xz_archive("incorrect_fr.json", &[0xff, 0xfe, 0x00, 0x80]);
    let lang = entry("fr", "French");
    let r = process_archive(&archive, &lang, 4);
    assert_eq!(r.err(), Some(PipelineError::Decode));
}

#[test]
fn unparsable_rectification_is_malformed() {
    let dump = "\"word\": \"chat\", \"lang\": \"French\", \"lang_code\": \"fr\", oops\n";
    let archive = tar_xz_archive("incorrect_fr.json", dump.as_bytes());
    let lang = entry("fr", "French");
    let r = process_archive(&archive, &lang, 4);
    assert_eq!(r.err(), Some(PipelineError::Malformed));
}

fn archive_chunks(archive: &[u8], chunk_size: usize) -> Vec<ChunkData> {
    archive
        .chunks(chunk_size)
        .map(|c| ChunkData {
            data: c.to_vec(),
            cancel_requested: false,
            elapsed_secs: 0,
        })
        .collect()
}

#[test]
fn pipeline_completes_end_to_end() {
    let archive = tar_xz_archive("incorrect_fr.json", FR_DUMP.as_bytes());
    let chunks = archive_chunks(&archive, 16);
    let lang = entry("fr", "French");
    let run = run_pipeline(&chunks, None, &lang, 4);
    assert_eq!(run.emitted.first(), Some(&0));
    assert_eq!(run.emitted.last(), Some(&100));
    let out = run.outcome.unwrap();
    assert_eq!(
        out.dictionary.get("chien"),
        Some("{\"pos\":\"noun\"}".to_string())
    );
}

#[test]
fn cancelled_pipeline_publishes_no_dictionary() {
    let archive = tar_xz_archive("incorrect_fr.json", FR_DUMP.as_bytes());
    let mut chunks = archive_chunks(&archive, 16);
    let mid = chunks.len() / 2;
    chunks[mid].cancel_requested = true;
    let lang = entry("fr", "French");
    let run = run_pipeline(&chunks, Some(archive.len() as u64), &lang, 4);
    assert_eq!(run.outcome.err(), Some(PipelineError::Cancelled));
}
