use batch_translator::chatgpt::ChatCompletionRole;
use batch_translator::chatgpt::ChatGPTAPI;
use batch_translator::chatgpt::ChatGPTOptions;
use batch_translator::chatgpt::TokenizedBatchizer;
use batch_translator::chatgpt::TranslateChatGPT;
use batch_translator::chatgpt::line_count_batchized;
use batch_translator::translator::ConcurrentTranslate;
use batch_translator::textures::TextureLine;
use batch_translator::textures::Textures;
use batch_translator::tok::Tokenizer;
use batch_translator::translator::Batchizer;

fn textures_of(contents: Vec<&str>) -> Textures {
    let lines = contents
        .iter()
        .map(|s| TextureLine::new(0, 0, s.to_string(), false))
        .collect::<Vec<_>>();
    Textures { lines, curr_index: 0, name: "".to_string() }
}

#[test]
fn test_tokenized_batchizer() {
    let textures = textures_of(vec![
        "请原谅我",
        "请原谅我",
        "请原谅我",
        "请原谅我",
        " 请原谅我",
        "请原谅我",
        "请原谅我",
        "请原谅我",
    ]);
    let mut batchizer = TokenizedBatchizer { bep: Tokenizer::cl100k().unwrap(), max_tokens: 500 };
    let (_, size) = batchizer.batchize(&textures, 0);
    assert_eq!(size, 8);
    batchizer.max_tokens = 1;
    let (_, size) = batchizer.batchize(&textures, 0);
    assert_eq!(size, 4);
}

#[test]
fn batchizer_groups_identical_prefixes_past_budget() {
    // All eight lines share a first character, so one batch takes them all
    // even with a one-token budget.
    let textures = textures_of(vec![
        "请原谅我1", "请原谅我2", "请原谅我3", "请原谅我4", "请原谅我5", "请原谅我6", "请原谅我7",
        "请原谅我8",
    ]);
    let batchizer = TokenizedBatchizer { bep: Tokenizer::cl100k().unwrap(), max_tokens: 1 };
    let (_, size) = batchizer.batchize(&textures, 0);
    assert_eq!(size, 8);
}

#[test]
fn batchizer_payload_numbers_lines() {
    let textures = textures_of(vec!["aaa", "bbb"]);
    let batchizer = TokenizedBatchizer { bep: Tokenizer::cl100k().unwrap(), max_tokens: 500 };
    let (msgs, size) = batchizer.batchize(&textures, 0);
    assert_eq!(size, 2);
    assert_eq!(msgs.len(), 1);
    assert!(matches!(msgs[0].role, ChatCompletionRole::User));
    assert_eq!(msgs[0].content, "(1) aaa\n(2) bbb\n");
}

#[test]
fn test_batchizer_by_line_count_by_specify_range() {
    let textures = textures_of(vec![
        "请原谅我1",
        "请原谅我2",
        "请原谅我3",
        "请原谅我4",
        "请原谅我5",
        "请原谅我6",
        "请原谅我7",
        "请原谅我8",
        "请原谅我9",
        "请原谅我10",
        "请原谅我11",
        "请原谅我12",
        "请原谅我13",
        "请原谅我14",
        "请原谅我15",
        "请原谅我16",
        "请原谅我17",
        "请原谅我18",
        "请原谅我19",
        "请原谅我20",
        "请原谅我21",
        "请原谅我22",
        "请原谅我23",
        "请原谅我24",
        "请原谅我25",
    ]);
    let specify_range = vec![(0, 1), (2, 10), (21, 23)];
    let batch_queue = line_count_batchized(&textures, &Some(specify_range));
    let mut result = batch_queue.iter().map(|b| (b.1.0, b.1.1)).collect::<Vec<(usize, usize)>>();
    result.reverse();
    assert_eq!(result, vec![(0, 1), (2, 5), (6, 9), (10, 10), (21, 23)]);
}

#[test]
fn token_walk_queue_covers_lines_in_reverse() {
    let textures = textures_of(vec![
        "请原谅我",
        "请原谅我",
        "请原谅我",
        "请原谅我",
        " 请原谅我",
        "请原谅我",
        "请原谅我",
        "请原谅我",
    ]);
    let batchizer = TokenizedBatchizer { bep: Tokenizer::cl100k().unwrap(), max_tokens: 1 };
    let gpt = TranslateChatGPT::new(
        ChatGPTOptions {
            api_pool: vec![ChatGPTAPI {
                api_key: "k".to_string(),
                api_url: "u".to_string(),
                org_id: None,
            }],
            prompt_path: None,
            max_concurrent: 2,
        },
        None,
        None,
    );
    let queue = gpt.create_batch_queue(&batchizer, &textures);
    let ranges = queue.iter().map(|b| b.1).collect::<Vec<_>>();
    // Workers pop from the tail, so the queue is reversed: the walk takes
    // (0,3), then the lone space-prefixed line, then the final run.
    assert_eq!(ranges, vec![(5, 7), (4, 4), (0, 3)]);
}

#[test]
fn line_count_batchized_without_ranges_is_empty() {
    let textures = textures_of(vec!["a", "b"]);
    let queue = line_count_batchized(&textures, &None);
    assert_eq!(queue.len(), 0);
}

#[test]
fn line_count_batchized_numbers_from_two() {
    let textures = textures_of(vec!["aaa", "bbb", "ccc"]);
    let queue = line_count_batchized(&textures, &Some(vec![(0, 2)]));
    assert_eq!(queue.len(), 1);
    assert_eq!(queue[0].1, (0, 2));
    assert_eq!(queue[0].0[0].content, "2. aaa\n3. bbb\n4. ccc\n");
}
