use grepai_cmd::{compact_parent, filter_search, filter_trace, split_path};

fn count_tokens(text: &str) -> usize {
    text.split_whitespace().count()
}

// ── filter_search tests ──

const SEARCH_RAW: &str = r#"Found 3 results for: "authentication logic"
────────────────────── Result 1 (score: 0.68) ──────────────────────
File: backend/src/some/path/api/auth.py:223-228

    def authenticate_user(credentials):
        """Authenticate user with the given credentials."""
        validated = validate_credentials(credentials)
        if not validated:
            raise AuthenticationError("Invalid credentials")
        return create_session(validated)

────────────────────── Result 2 (score: 0.38) ──────────────────────
File: .agents/skills/auth-flow/SKILL.md:330-394

    ## Authentication Flow
    The authentication flow begins when the user submits their credentials.
    The system validates the credentials against the database, checks for
    rate limiting, verifies two-factor authentication if enabled, and
    ... (51 more lines)

────────────────────── Result 3 (score: 0.25) ──────────────────────
File: docs/architecture.md:10-15

    # Authentication Architecture
    The authentication module handles all user authentication
    including OAuth, JWT tokens, and session management.
"#;

#[test]
fn test_filter_search_basic() {
    let result = filter_search(SEARCH_RAW);
    assert!(result.contains("grepai: \"authentication logic\" — 3 results"));
    assert!(result.contains("0.68"));
    assert!(result.contains("auth.py:223-228"));
    assert!(result.contains("0.38"));
    assert!(result.contains("SKILL.md:330-394"));
    assert!(result.contains("0.25"));
    assert!(result.contains("architecture.md:10-15"));
    // Code bodies must be stripped
    assert!(!result.contains("def authenticate_user"));
    assert!(!result.contains("validate_credentials"));
    assert!(!result.contains("Authentication Flow"));
}

#[test]
fn test_filter_search_snapshot() {
    let result = filter_search(SEARCH_RAW);
    assert_eq!(
        result,
        "grepai: \"authentication logic\" — 3 results\n\
         \n\
         \x20 0.68  auth.py:223-228              (backend/src/.../api/)\n\
         \x20 0.38  SKILL.md:330-394 (+51 lines) (.agents/skills/auth-flow/)\n\
         \x20 0.25  architecture.md:10-15        (docs/)"
    );
}

#[test]
fn test_filter_search_more_lines_marker() {
    let result = filter_search(SEARCH_RAW);
    assert!(result.contains("(+51 lines)"));
}

#[test]
fn test_filter_search_parent_dirs() {
    let result = filter_search(SEARCH_RAW);
    // Parent directory should be shown compactly
    assert!(result.contains("(backend/src/.../api/)"));
    assert!(result.contains("(.agents/skills/auth-flow/)"));
}

#[test]
fn test_filter_search_token_savings() {
    let input_tokens = count_tokens(SEARCH_RAW);
    let output = filter_search(SEARCH_RAW);
    let output_tokens = count_tokens(&output);

    let savings = 100.0 - (output_tokens as f64 / input_tokens as f64 * 100.0);
    assert!(
        savings >= 80.0,
        "Search filter: expected >=80% savings, got {:.1}% (in={}, out={})",
        savings,
        input_tokens,
        output_tokens
    );
}

#[test]
fn test_filter_search_empty_results() {
    let input = r#"Found 0 results for: "nonexistent query""#;
    let result = filter_search(input);
    assert!(result.contains("grepai: \"nonexistent query\" — 0 results"));
}

#[test]
fn test_filter_search_malformed_input() {
    let input = "this is not grepai output at all";
    let result = filter_search(input);
    // Should return as-is (fallback)
    assert_eq!(result, input);
}

// ── filter_trace tests ──

const TRACE_RAW: &str = r#"Symbol: login (function)
File: backend/src/auth.py:117

Callers (6):

  Caller 1:
    Function: test_login_success (function)
    Calls at: tests/authRepository.test.ts:61
    Code:
        const result = await login(validCredentials);

  Caller 2:
    Function: test_login_failure (function)
    Calls at: tests/authRepository.test.ts:96
    Code:
        const result = await login(invalidCredentials);

  Caller 3:
    Function: test_login_rate_limit (function)
    Calls at: tests/authRepository.test.ts:126
    Code:
        await login(credentials);

  Caller 4:
    Function: test_exercise_login (function)
    Calls at: tests/test_exercise_library.py:120
    Code:
        login(test_user)

  Caller 5:
    Function: test_exercise_login_again (function)
    Calls at: tests/test_exercise_library.py:145
    Code:
        login(another_user)

  Caller 6:
    Function: setup_session (function)
    Calls at: tests/conftest.py:598
    Code:
        session = login(admin_creds)
"#;

#[test]
fn test_filter_trace_basic() {
    let result = filter_trace(TRACE_RAW);
    assert!(result.contains("login (function) @ auth.py:117"));
    assert!(result.contains("6 callers in 3 files"));
    // Code bodies must be stripped
    assert!(!result.contains("const result = await"));
    assert!(!result.contains("login(test_user)"));
    assert!(!result.contains("Code:"));
}

#[test]
fn test_filter_trace_snapshot() {
    let result = filter_trace(TRACE_RAW);
    assert_eq!(
        result,
        "login (function) @ auth.py:117 — 6 callers in 3 files:\n\
         \n\
         \x20 authRepository.test.ts  3x (lines: 61,96,126)\n\
         \x20 test_exercise_library.py  2x (lines: 120,145)\n\
         \x20 conftest.py:598  1x"
    );
}

#[test]
fn test_filter_trace_deduplication() {
    let result = filter_trace(TRACE_RAW);
    // authRepository.test.ts has 3 callers → should be grouped as 3x
    assert!(result.contains("authRepository.test.ts  3x"));
    // test_exercise_library.py has 2 callers → 2x
    assert!(result.contains("test_exercise_library.py  2x"));
    // conftest.py has 1 caller → 1x with line number
    assert!(result.contains("conftest.py:598  1x"));
}

#[test]
fn test_filter_trace_line_numbers() {
    let result = filter_trace(TRACE_RAW);
    assert!(result.contains("lines: 61,96,126"));
    assert!(result.contains("lines: 120,145"));
}

#[test]
fn test_filter_trace_token_savings() {
    let input_tokens = count_tokens(TRACE_RAW);
    let output = filter_trace(TRACE_RAW);
    let output_tokens = count_tokens(&output);

    let savings = 100.0 - (output_tokens as f64 / input_tokens as f64 * 100.0);
    assert!(
        savings >= 70.0,
        "Trace filter: expected >=70% savings, got {:.1}% (in={}, out={})",
        savings,
        input_tokens,
        output_tokens
    );
}

#[test]
fn test_filter_trace_empty_callers() {
    let input = r#"Symbol: isolated_func (function)
File: src/utils.py:42

Callers (0):
"#;
    let result = filter_trace(input);
    assert!(result.contains("isolated_func (function) @ utils.py:42"));
    assert!(result.contains("0 callers in 0 files"));
}

#[test]
fn test_filter_trace_malformed_input() {
    let input = "random text that is not trace output";
    let result = filter_trace(input);
    assert_eq!(result, input);
}

#[test]
fn test_filter_trace_callees() {
    let input = r#"Symbol: process (function)
File: src/pipeline.py:50

Callees (2):

  Callee 1:
    Function: validate (function)
    Calls at: src/validator.py:10
    Code:
        validate(data)

  Callee 2:
    Function: transform (function)
    Calls at: src/transformer.py:25
    Code:
        transform(validated)
"#;
    let result = filter_trace(input);
    assert!(result.contains("process (function) @ pipeline.py:50"));
    assert!(result.contains("2 callees in 2 files"));
    assert!(result.contains("validator.py:10  1x"));
    assert!(result.contains("transformer.py:25  1x"));
}

// ── helper tests ──

#[test]
fn test_split_path() {
    let (name, parent) = split_path("backend/src/api/auth.py");
    assert_eq!(name, "auth.py");
    assert_eq!(parent, "backend/src/api");
}

#[test]
fn test_split_path_no_parent() {
    let (name, parent) = split_path("file.py");
    assert_eq!(name, "file.py");
    assert_eq!(parent, "");
}

#[test]
fn test_compact_parent_short() {
    assert_eq!(compact_parent("src/api"), "src/api/");
}

#[test]
fn test_compact_parent_long() {
    assert_eq!(
        compact_parent("backend/src/some/deep/path/api"),
        "backend/src/.../api/"
    );
}
