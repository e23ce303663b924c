use batch_translator::chatgpt::line_count_batchized;
use batch_translator::input::TransType;
use batch_translator::output::TextOutput;
use batch_translator::rewrite::Output;
use batch_translator::rewrite::OutputError;
use batch_translator::rewrite::output;
use batch_translator::rewrite::rewrite;
use batch_translator::textures::TextureLine;
use batch_translator::textures::Textures;
use batch_translator::textures::TranslatedLine;
use batch_translator::textures::Translator;
use batch_translator::BatchizerOptions;
use batch_translator::Configuration;
use batch_translator::RegexDescription;
use batch_translator::RegexUsage;

fn line(seek: usize, size: usize, content: &str) -> TextureLine {
    TextureLine::new(seek, size, content.to_string(), false)
}

/// Fifteen contiguous four-byte lines `L00\n` … `L14\n`.
fn fifteen_lines() -> (Vec<u8>, Textures) {
    let mut data = Vec::new();
    let mut lines = Vec::new();
    for i in 0..15usize {
        let text = format!("L{:02}\n", i);
        lines.push(line(4 * i, 4, &text));
        data.extend_from_slice(text.as_bytes());
    }
    (data, Textures { lines, curr_index: 0, name: "f.txt".to_string() })
}

#[test]
fn shape_mismatch_records_range_and_passes_bytes_through() {
    let (data, mut textures) = fifteen_lines();
    // The batch covers lines 10–14 (size 5) but the response extracts to 4.
    textures.update(TranslatedLine::new(
        Translator::ChatGPT,
        "(1) A\n(2) B\n(3) C\n(4) D".to_string(),
        10,
        14,
    ));
    let fmtr = TextOutput::new(r#"never-matches-zzz"#, r#"\(\d+\)\s?(.+)"#);
    let (out, ranges) = rewrite(&fmtr, Translator::ChatGPT, &textures, &data);
    assert_eq!(ranges, vec![(10, 14)]);
    assert_eq!(out, data);
    // The next run splits the recorded range into fixed-size sub-batches.
    let queue = line_count_batchized(&textures, &Some(ranges));
    let mut result = queue.iter().map(|b| (b.1.0, b.1.1)).collect::<Vec<_>>();
    result.reverse();
    assert_eq!(result, vec![(10, 13), (14, 14)]);
}

#[test]
fn rewrite_identity_when_translation_reproduces_lines() {
    let data = b"aaa\nbbb\nccc\n".to_vec();
    let mut textures = Textures {
        lines: vec![line(0, 4, "aaa\n"), line(4, 4, "bbb\n"), line(8, 4, "ccc\n")],
        curr_index: 0,
        name: "i.txt".to_string(),
    };
    textures.update(TranslatedLine::new(
        Translator::ChatGPT,
        "(1) aaa\n(2) bbb\n(3) ccc".to_string(),
        0,
        2,
    ));
    let fmtr = TextOutput::new(r#"never-matches-zzz"#, r#"\(\d+\)\s(.+)"#);
    let (out, ranges) = rewrite(&fmtr, Translator::ChatGPT, &textures, &data);
    assert_eq!(ranges, vec![]);
    assert_eq!(out, data);
}

#[test]
fn rewrite_splices_translated_batch() {
    let data = b"keep\nXX\nkeep2\n".to_vec();
    let mut textures = Textures {
        lines: vec![line(5, 3, "XX\n")],
        curr_index: 0,
        name: "s.txt".to_string(),
    };
    textures.update(TranslatedLine::new(Translator::ChatGPT, "(1) YYY".to_string(), 0, 0));
    let fmtr = TextOutput::new(r#"never-matches-zzz"#, r#"\(\d+\)\s(.+)"#);
    let (out, ranges) = rewrite(&fmtr, Translator::ChatGPT, &textures, &data);
    assert_eq!(ranges, vec![]);
    assert_eq!(out, b"keep\nYYY\nkeep2\n".to_vec());
}

#[test]
fn untranslated_lines_pass_through() {
    let (data, textures) = fifteen_lines();
    let fmtr = TextOutput::new(r#"never-matches-zzz"#, r#"\(\d+\)\s(.+)"#);
    let (out, ranges) = rewrite(&fmtr, Translator::ChatGPT, &textures, &data);
    assert_eq!(ranges, vec![]);
    assert_eq!(out, data);
}

fn config_for(trans_type: TransType, regexen: Vec<&str>) -> Configuration {
    Configuration {
        file: None,
        lang_from: "Japanese".to_string(),
        lang_to: "Chinese".to_string(),
        trans_type,
        filter_regexen: vec![],
        capture_regex: None,
        replace_expression: None,
        output_regexen: regexen
            .iter()
            .map(|r| RegexDescription {
                usage: RegexUsage::Replace("".to_string()),
                regex: r.to_string(),
            })
            .collect(),
        chatgpt_opt: None,
        specify_range: None,
        batchizer_opt: BatchizerOptions { max_tokens: 1000 },
        mtool_opt: None,
    }
}

#[test]
fn output_requires_two_regexen() {
    let (data, textures) = fifteen_lines();
    let cfg = config_for(TransType::Text, vec![r"(.*)"]);
    let r = output(&cfg, &textures, &data);
    assert_eq!(r.unwrap_err(), OutputError::TooFewRegexen);
}

#[test]
fn output_rejects_invalid_regex() {
    let (data, textures) = fifteen_lines();
    let cfg = config_for(TransType::Text, vec![r"(", r"(.*)"]);
    let r = output(&cfg, &textures, &data);
    assert_eq!(r.unwrap_err(), OutputError::InvalidRegex);
}

#[test]
fn output_replace_needs_template() {
    let (data, textures) = fifteen_lines();
    let cfg = config_for(TransType::Replace, vec![r"(.*)", r"(.*)"]);
    let r = output(&cfg, &textures, &data);
    assert_eq!(r.unwrap_err(), OutputError::MissingTemplate);
}

#[test]
fn output_text_family_runs_rewrite() {
    let (data, textures) = fifteen_lines();
    let cfg = config_for(TransType::Text, vec![r"never-matches-zzz", r"\(\d+\)\s(.+)"]);
    let (out, ranges) = output(&cfg, &textures, &data).unwrap();
    assert_eq!(ranges, vec![]);
    assert_eq!(out, data);
}

#[test]
fn output_trait_dispatches_to_rewrite() {
    let (data, textures) = fifteen_lines();
    let fmtr = TextOutput::new(r#"never-matches-zzz"#, r#"\(\d+\)\s(.+)"#);
    let (out, ranges) = fmtr.output(Translator::ChatGPT, &textures, &data);
    assert_eq!(ranges, vec![]);
    assert_eq!(out, data);
}
