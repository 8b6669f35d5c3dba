use notedmd::checkpoint::ProcessingProgress;
use notedmd::checkpoint::ProgressTracker;
use notedmd::clients::claude_client::ClaudeError;
use notedmd::clients::claude_client::ClaudeResponse;
use notedmd::clients::claude_client::ContentResponse;
use notedmd::clients::gemini_client::Candidate;
use notedmd::clients::gemini_client::ContentResponse as GeminiContent;
use notedmd::clients::gemini_client::GeminiError;
use notedmd::clients::gemini_client::GeminiResponse;
use notedmd::clients::gemini_client::PartResponse;
use notedmd::clients::ollama_client::OllamaResponse;
use notedmd::clients::openai_client::Choice;
use notedmd::clients::openai_client::OpenAIError;
use notedmd::clients::openai_client::OpenAIResponse;
use notedmd::clients::openai_client::ResponseMessage;
use notedmd::config::ClaudeConfig;
use notedmd::config::Config;
use notedmd::config::GeminiConfig;
use notedmd::config::OllamaConfig;
use notedmd::config::OpenAIConfig;
use notedmd::config::ProviderSelection;
use notedmd::config::provider_configured;
use notedmd::config::select_provider;
use notedmd::error::NotedError;
use notedmd::file_utils::get_file_mime_type;
use notedmd::file_utils::process_file;
use notedmd::scheduler::check_pages_per_batch;

fn empty_config() -> Config {
    Config { active_provider: None, gemini: None, ollama: None, claude: None, openai: None }
}

#[test]
fn mime_types_for_supported_extensions() {
    assert_eq!(get_file_mime_type("notes.png").unwrap(), "image/png");
    assert_eq!(get_file_mime_type("/a/b/doc.pdf").unwrap(), "application/pdf");
    assert_eq!(get_file_mime_type("scan.jpg").unwrap(), "image/jpeg");
    assert_eq!(get_file_mime_type("scan.jpeg").unwrap(), "image/jpeg");
}

#[test]
fn mime_type_rejects_unsupported_extension() {
    assert_eq!(
        get_file_mime_type("archive.tar.gz").unwrap_err(),
        NotedError::UnsupportedFileType("gz".to_string())
    );
    assert_eq!(
        get_file_mime_type("upper.PNG").unwrap_err(),
        NotedError::UnsupportedFileType("PNG".to_string())
    );
    assert_eq!(
        get_file_mime_type("trailing.").unwrap_err(),
        NotedError::UnsupportedFileType("".to_string())
    );
}

#[test]
fn mime_type_rejects_missing_extension() {
    let no_ext = NotedError::UnsupportedFileType("No extension".to_string());
    assert_eq!(get_file_mime_type("noext").unwrap_err(), no_ext);
    assert_eq!(get_file_mime_type(".hidden").unwrap_err(), no_ext);
    assert_eq!(get_file_mime_type("dir.d/file").unwrap_err(), no_ext);
    assert_eq!(get_file_mime_type("..").unwrap_err(), no_ext);
    assert_eq!(get_file_mime_type("a/..").unwrap_err(), no_ext);
    assert_eq!(get_file_mime_type("/").unwrap_err(), no_ext);
}

#[test]
fn mime_type_ignores_trailing_separators() {
    assert_eq!(get_file_mime_type("a/b.pdf/").unwrap(), "application/pdf");
    assert_eq!(get_file_mime_type("notes.png//").unwrap(), "image/png");
}

#[test]
fn encodes_file_bytes_as_base64() {
    let fd = process_file("img.png", &[0u8, 0, 0]).unwrap();
    assert_eq!(fd.mime_type, "image/png");
    assert_eq!(fd.encoded_data, "AAAA");

    let fd2 = process_file("a.jpg", &[104u8, 101, 108, 108, 111]).unwrap();
    assert_eq!(fd2.encoded_data, "aGVsbG8=");

    let fd3 = process_file("e.pdf", &[]).unwrap();
    assert_eq!(fd3.encoded_data, "");

    assert!(matches!(
        process_file("a.txt", &[1u8]),
        Err(NotedError::UnsupportedFileType(_))
    ));
}

#[test]
fn tracker_records_and_forgets_progress() {
    let mut t = ProgressTracker::new();
    assert!(t.get_progress("x.pdf").is_none());
    t.update_progress(
        "x.pdf".to_string(),
        ProcessingProgress { last_processed_page: 2, total_pages: 7 },
    );
    let p = t.get_progress("x.pdf").unwrap();
    assert_eq!(p.last_processed_page, 2);
    assert_eq!(p.total_pages, 7);
    t.update_progress(
        "x.pdf".to_string(),
        ProcessingProgress { last_processed_page: 5, total_pages: 7 },
    );
    assert_eq!(t.get_progress("x.pdf").unwrap().last_processed_page, 5);
    t.mark_completed("x.pdf");
    assert!(t.get_progress("x.pdf").is_none());
    // removing an absent record is harmless
    t.mark_completed("x.pdf");
    assert!(t.get_progress("x.pdf").is_none());
}

#[test]
fn tracker_entries_expose_the_record_set() {
    let mut t = ProgressTracker::new();
    t.update_progress(
        "a".to_string(),
        ProcessingProgress { last_processed_page: 1, total_pages: 2 },
    );
    t.update_progress(
        "b".to_string(),
        ProcessingProgress { last_processed_page: 3, total_pages: 4 },
    );
    let entries = t.entries();
    assert_eq!(entries.len(), 2);
    assert!(entries.iter().any(|(k, p)| k.as_str() == "a" && p.last_processed_page == 1));
    assert!(entries.iter().any(|(k, p)| k.as_str() == "b" && p.total_pages == 4));
}

#[test]
fn claude_extraction_strips_fences_and_reports_errors() {
    let ok = ClaudeResponse {
        content: vec![ContentResponse { text: "```markdown\n# T\n```".to_string() }],
        error: None,
    };
    assert_eq!(ok.extract_markdown().unwrap(), "# T\n");

    let empty = ClaudeResponse { content: vec![], error: None };
    assert_eq!(empty.extract_markdown().unwrap(), "");

    let err = ClaudeResponse {
        content: vec![],
        error: Some(ClaudeError { message: "bad key".to_string() }),
    };
    assert_eq!(
        err.extract_markdown().unwrap_err(),
        NotedError::ApiError("bad key".to_string())
    );
}

#[test]
fn gemini_extraction_reads_first_candidate_part() {
    let ok = GeminiResponse {
        candidates: Some(vec![Candidate {
            content: GeminiContent { parts: vec![PartResponse { text: "hello".to_string() }] },
        }]),
        error: None,
    };
    assert_eq!(ok.extract_markdown().unwrap(), "hello");

    let none = GeminiResponse { candidates: None, error: None };
    assert_eq!(none.extract_markdown().unwrap(), "");

    let hollow = GeminiResponse {
        candidates: Some(vec![Candidate { content: GeminiContent { parts: vec![] } }]),
        error: None,
    };
    assert_eq!(hollow.extract_markdown().unwrap(), "");

    let err = GeminiResponse {
        candidates: None,
        error: Some(GeminiError { message: "quota".to_string() }),
    };
    assert_eq!(
        err.extract_markdown().unwrap_err(),
        NotedError::ApiError("quota".to_string())
    );
}

#[test]
fn ollama_extraction_cleans_response() {
    let ok = OllamaResponse { response: "```markdown\nbody```".to_string(), error: None };
    assert_eq!(ok.extract_markdown().unwrap(), "body");
    let err = OllamaResponse {
        response: String::new(),
        error: Some("model not found".to_string()),
    };
    assert_eq!(
        err.extract_markdown().unwrap_err(),
        NotedError::ApiError("model not found".to_string())
    );
}

#[test]
fn openai_extraction_reads_first_choice() {
    let ok = OpenAIResponse {
        choices: vec![Choice { message: ResponseMessage { content: "text".to_string() } }],
        error: None,
    };
    assert_eq!(ok.extract_markdown().unwrap(), "text");
    let empty = OpenAIResponse { choices: vec![], error: None };
    assert_eq!(empty.extract_markdown().unwrap(), "");
    let err = OpenAIResponse {
        choices: vec![],
        error: Some(OpenAIError { message: "overloaded".to_string() }),
    };
    assert_eq!(
        err.extract_markdown().unwrap_err(),
        NotedError::ApiError("overloaded".to_string())
    );
}

#[test]
fn fence_stripping_is_repeated_and_partial_fences_stay() {
    let r = OllamaResponse {
        response: "```markdown\n```markdown\nx``````".to_string(),
        error: None,
    };
    assert_eq!(r.extract_markdown().unwrap(), "x");
    let keep = OllamaResponse { response: "``x``".to_string(), error: None };
    assert_eq!(keep.extract_markdown().unwrap(), "``x``");
}

#[test]
fn selects_gemini_with_configured_or_overriding_key() {
    let mut config = empty_config();
    config.active_provider = Some("gemini".to_string());
    config.gemini = Some(GeminiConfig { api_key: "cfg".to_string() });
    match select_provider(&config, None).unwrap() {
        ProviderSelection::Gemini { api_key } => assert_eq!(api_key, "cfg"),
        _ => panic!("expected the Gemini selection"),
    }
    match select_provider(&config, Some("cli".to_string())).unwrap() {
        ProviderSelection::Gemini { api_key } => assert_eq!(api_key, "cli"),
        _ => panic!("expected the Gemini selection"),
    }
    config.gemini = None;
    assert_eq!(
        select_provider(&config, None).unwrap_err(),
        NotedError::GeminiNotConfigured
    );
    // an explicit key suffices even without a stored section
    match select_provider(&config, Some("k".to_string())).unwrap() {
        ProviderSelection::Gemini { api_key } => assert_eq!(api_key, "k"),
        _ => panic!("expected the Gemini selection"),
    }
}

#[test]
fn selects_claude_ollama_and_openai() {
    let mut config = empty_config();
    config.active_provider = Some("anthropic".to_string());
    assert_eq!(
        select_provider(&config, Some("k".to_string())).unwrap_err(),
        NotedError::ClaudeNotConfigured
    );
    config.claude = Some(ClaudeConfig { api_key: "ck".to_string(), model: "m1".to_string() });
    match select_provider(&config, Some("cli".to_string())).unwrap() {
        ProviderSelection::Claude { api_key, model } => {
            assert_eq!(api_key, "cli");
            assert_eq!(model, "m1");
        },
        _ => panic!("wrong provider selection"),
    }

    config.active_provider = Some("ollama".to_string());
    assert_eq!(select_provider(&config, None).unwrap_err(), NotedError::OllamaNotConfigured);
    config.ollama = Some(OllamaConfig { url: "u".to_string(), model: "m".to_string() });
    match select_provider(&config, None).unwrap() {
        ProviderSelection::Ollama { url, model } => {
            assert_eq!(url, "u");
            assert_eq!(model, "m");
        },
        _ => panic!("expected the Ollama selection"),
    }

    config.active_provider = Some("openai".to_string());
    assert_eq!(select_provider(&config, None).unwrap_err(), NotedError::OpenAINotConfigured);
    config.openai = Some(OpenAIConfig { url: "s".to_string(), model: "g".to_string(), api_key: None });
    match select_provider(&config, None).unwrap() {
        ProviderSelection::OpenAI { url, model, api_key } => {
            assert_eq!(url, "s");
            assert_eq!(model, "g");
            assert!(api_key.is_none());
        },
        _ => panic!("expected the OpenAI selection"),
    }
}

#[test]
fn rejects_missing_or_unknown_provider() {
    let config = empty_config();
    assert_eq!(select_provider(&config, None).unwrap_err(), NotedError::NoActiveProvider);
    let mut named = empty_config();
    named.active_provider = Some("mystery".to_string());
    assert_eq!(select_provider(&named, None).unwrap_err(), NotedError::NoActiveProvider);
}

#[test]
fn reports_which_providers_are_configured() {
    let mut config = empty_config();
    config.claude = Some(ClaudeConfig { api_key: "k".to_string(), model: "m".to_string() });
    assert_eq!(provider_configured(&config, "anthropic"), Some(true));
    assert_eq!(provider_configured(&config, "gemini"), Some(false));
    assert_eq!(provider_configured(&config, "ollama"), Some(false));
    assert_eq!(provider_configured(&config, "openai"), Some(false));
    assert_eq!(provider_configured(&config, "mystery"), None);
}

#[test]
fn enforces_batch_size_ceiling() {
    assert!(check_pages_per_batch(1).is_ok());
    assert!(check_pages_per_batch(30).is_ok());
    assert_eq!(
        check_pages_per_batch(31).unwrap_err(),
        NotedError::BatchSizeTooLarge(31)
    );
}
