use batch_translator::chatgpt::ChatCompletionChoice;
use batch_translator::chatgpt::ChatCompletionMessage;
use batch_translator::chatgpt::ChatCompletionResponse;
use batch_translator::chatgpt::ChatCompletionRole;
use batch_translator::chatgpt::ChatComplectionUsage;
use batch_translator::chatgpt::ChatGPTAPI;
use batch_translator::chatgpt::ChatGPTClient;
use batch_translator::chatgpt::ChatGPTOptions;
use batch_translator::chatgpt::TranslateChatGPT;
use batch_translator::chatgpt::translated_from_response;
use batch_translator::textures::Translator;
use batch_translator::translator::ConcurrentTranslate;

#[test]
fn test_chat_gpt_create_client() {
    let mut gpt = TranslateChatGPT::new(
        ChatGPTOptions {
            api_pool: vec![
                ChatGPTAPI {
                    api_key: "test1".to_string(),
                    api_url: "test1.html".to_string(),
                    org_id: None,
                },
                ChatGPTAPI {
                    api_key: "test2".to_string(),
                    api_url: "test2.html".to_string(),
                    org_id: None,
                },
                ChatGPTAPI {
                    api_key: "test3".to_string(),
                    api_url: "test1.html".to_string(),
                    org_id: None,
                },
            ],
            prompt_path: None,
            max_concurrent: 10,
        },
        None,
        None,
    );
    let client = gpt.create_client();
    assert_eq!(client.api_key, "test1");
    assert_eq!(client.api_url, "test1.html");
    let client = gpt.create_client();
    assert_eq!(client.api_key, "test2");
    assert_eq!(client.api_url, "test2.html");
    let client = gpt.create_client();
    assert_eq!(client.api_key, "test3");
    assert_eq!(client.api_url, "test1.html");
    let client = gpt.create_client();
    assert_eq!(client.api_key, "test1");
    assert_eq!(client.api_url, "test1.html");
    let client = gpt.create_client();
    assert_eq!(client.api_key, "test2");
    assert_eq!(client.api_url, "test2.html");
}

#[test]
fn round_robin_counts_match_ceiling() {
    // With pool size 3 and 8 creations, credential i is used ceil((8-i)/3)
    // times: 3, 3, 2.
    let pool_size = 3usize;
    let creations = 8usize;
    let mut counts = vec![0usize; pool_size];
    let mut gpt = TranslateChatGPT::new(
        ChatGPTOptions {
            api_pool: (0..pool_size)
                .map(|i| ChatGPTAPI {
                    api_key: format!("key{}", i),
                    api_url: "u".to_string(),
                    org_id: None,
                })
                .collect(),
            prompt_path: None,
            max_concurrent: 1,
        },
        None,
        None,
    );
    for _ in 0..creations {
        let c = gpt.create_client();
        let i: usize = c.api_key[3..].parse().unwrap();
        counts[i] += 1;
    }
    for i in 0..pool_size {
        let expected = (creations - i + pool_size - 1) / pool_size;
        assert_eq!(counts[i], expected);
    }
}

#[test]
fn client_keeps_prompt_preamble() {
    let preamble = vec![ChatCompletionMessage::new(ChatCompletionRole::System, "be brief")];
    let client = ChatGPTClient::new("k", "http://u", Some(preamble), None);
    assert_eq!(client.request.model, "gpt-3.5-turbo");
    assert_eq!(client.request.messages.len(), 1);
    assert_eq!(client.request.messages[0].content, "be brief");
    let body = client.build_request(vec![ChatCompletionMessage::new(
        ChatCompletionRole::User,
        "(1) hi\n",
    )]);
    assert_eq!(body.messages.len(), 2);
    assert_eq!(body.messages[0].content, "be brief");
    assert_eq!(body.messages[1].content, "(1) hi\n");
    assert_eq!(body.stream, Some(false));
}

#[test]
fn response_first_choice_becomes_translated_line() {
    let resp = ChatCompletionResponse {
        id: "chatcmpl-123".to_string(),
        object: "chat.completion".to_string(),
        created: 1677652288,
        choices: vec![ChatCompletionChoice {
            index: 0,
            message: ChatCompletionMessage::new(ChatCompletionRole::Assistant, "(1) done\n"),
            finish_reason: "stop".to_string(),
        }],
        usage: ChatComplectionUsage { prompt_tokens: 9, completion_tokens: 12, total_tokens: 21 },
    };
    let t = translated_from_response(&resp, 4, 7).unwrap();
    assert!(matches!(t.translator, Translator::ChatGPT));
    assert_eq!(t.content, "(1) done\n");
    assert_eq!(t.batch_range, (4, 7));
}

#[test]
fn response_without_choices_yields_none() {
    let resp = ChatCompletionResponse {
        id: "x".to_string(),
        object: "chat.completion".to_string(),
        created: 0,
        choices: vec![],
        usage: ChatComplectionUsage { prompt_tokens: 0, completion_tokens: 0, total_tokens: 0 },
    };
    assert!(translated_from_response(&resp, 0, 0).is_none());
}
