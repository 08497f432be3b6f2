//! Responses, configuration, errors, tree nodes and command handlers.

use nut_shell::auth::AccessLevel;
use nut_shell::config::{DefaultConfig, ShellConfig};
use nut_shell::error::CliError;
use nut_shell::response::Response;
use nut_shell::shell::handler::CommandHandler;
use nut_shell::tree::{CommandKind, CommandMeta, Node};
use nut_shell::CharIo;

// Access level for testing
#[derive(Debug, Copy, Clone, PartialEq, Eq, PartialOrd, Ord)]
enum TestAccessLevel {
    Guest,
    User,
}

impl AccessLevel for TestAccessLevel {
    fn from_str(s: &str) -> Option<Self> {
        match s {
            "Guest" => Some(Self::Guest),
            "User" => Some(Self::User),
            _ => None,
        }
    }

    fn as_str(&self) -> &'static str {
        match self {
            Self::Guest => "Guest",
            Self::User => "User",
        }
    }
}

const NODE_TEST_CMD: CommandMeta<TestAccessLevel> = CommandMeta {
    id: "test",
    name: "test",
    description: "Test command",
    access_level: TestAccessLevel::User,
    kind: CommandKind::Sync,
    min_args: 0,
    max_args: 0,
};

// Handler for testing
struct TestHandler;

impl CommandHandler<DefaultConfig> for TestHandler {
    fn execute_sync(&self, id: &str, _args: &[&str]) -> Result<Response<DefaultConfig>, CliError> {
        match id {
            "test" => Ok(Response::success("OK")),
            _ => Err(CliError::CommandNotFound),
        }
    }
}

// A second handler with the same commands
struct TestHandlers;

impl CommandHandler<DefaultConfig> for TestHandlers {
    fn execute_sync(&self, id: &str, _args: &[&str]) -> Result<Response<DefaultConfig>, CliError> {
        match id {
            "test" => Ok(Response::success("OK")),
            _ => Err(CliError::CommandNotFound),
        }
    }
}

#[test]
fn test_success_response() {
    let response = Response::<DefaultConfig>::success("OK");
    assert_eq!(response.message.as_str(), "OK");
    assert!(!response.inline_message);
    assert!(!response.prefix_newline);
    assert!(!response.indent_message);
    assert!(response.postfix_newline);
    assert!(response.show_prompt);

    assert!(!response.exclude_from_history);
}

#[test]
fn response_test_response_empty_message() {
    let response = Response::<DefaultConfig>::success("");
    assert_eq!(response.message.as_str(), "");
}

#[test]
fn response_test_response_long_message() {
    let long_msg = "A".repeat(250);
    let response = Response::<DefaultConfig>::success(&long_msg);
    assert!(response.message.len() <= 256);
}

#[test]
fn test_builder_chaining() {
    let response = Response::<DefaultConfig>::success("OK")
        .inline()
        .with_prefix_newline()
        .indented()
        .without_postfix_newline()
        .without_prompt();

    assert_eq!(response.message.as_str(), "OK");
    assert!(response.inline_message);
    assert!(response.prefix_newline);
    assert!(response.indent_message);
    assert!(!response.postfix_newline);
    assert!(!response.show_prompt);
}

#[test]
fn response_test_response_exclude_from_history_default() {
    let response = Response::<DefaultConfig>::success("Test");
    assert!(!response.exclude_from_history);
}

#[test]
fn response_test_response_success_no_history() {
    let response = Response::<DefaultConfig>::success_no_history("Sensitive data");
    assert!(response.exclude_from_history);
    assert_eq!(response.message.as_str(), "Sensitive data");
}

#[test]
fn response_test_response_without_history_builder() {
    let response = Response::<DefaultConfig>::success("Password set").without_history();
    assert!(response.exclude_from_history);
}

#[test]
fn test_builder_chaining_with_history() {
    let response = Response::<DefaultConfig>::success("OK")
        .inline()
        .with_prefix_newline()
        .indented()
        .without_postfix_newline()
        .without_prompt()
        .without_history();

    assert_eq!(response.message.as_str(), "OK");
    assert!(response.inline_message);
    assert!(response.prefix_newline);
    assert!(response.indent_message);
    assert!(!response.postfix_newline);
    assert!(!response.show_prompt);
    assert!(response.exclude_from_history);
}


#[test]
fn test_messages_are_const() {
    // Verify that messages are compile-time constants (can be used in const context)
    const _WELCOME: &str = DefaultConfig::MSG_WELCOME;
    const _LOGIN: &str = DefaultConfig::MSG_LOGIN_PROMPT;
    const _SUCCESS: &str = DefaultConfig::MSG_LOGIN_SUCCESS;
    const _FAILED: &str = DefaultConfig::MSG_LOGIN_FAILED;
    const _LOGOUT: &str = DefaultConfig::MSG_LOGOUT;
    const _FORMAT: &str = DefaultConfig::MSG_INVALID_LOGIN_FORMAT;
}


#[test]
fn test_error_display() {
    assert_eq!(
        CliError::CommandNotFound.message(),
        "Command not found"
    );
    assert_eq!(CliError::InvalidPath.message(), "Invalid path");

    let err = CliError::InvalidArgumentCount {
        expected_min: 2,
        expected_max: 2,
        received: 1,
    };
    assert_eq!(err.message(), "Expected 2 arguments, got 1");

    let err = CliError::InvalidArgumentCount {
        expected_min: 1,
        expected_max: 3,
        received: 4,
    };
    assert_eq!(err.message(), "Expected 1-3 arguments, got 4");

    let expected = String::from("integer");
    let err = CliError::InvalidArgumentFormat {
        arg_index: 0,
        expected,
    };
    assert_eq!(err.message(), "Argument 1: expected integer");

    let expected = String::from("IP address");
    let err = CliError::InvalidArgumentFormat {
        arg_index: 2,
        expected,
    };
    assert_eq!(err.message(), "Argument 3: expected IP address");
}

#[test]
fn test_error_equality() {
    assert_eq!(CliError::CommandNotFound, CliError::CommandNotFound);
    assert_ne!(CliError::CommandNotFound, CliError::InvalidPath);
}


#[test]
fn test_command_kind() {
    assert_eq!(CommandKind::Sync, CommandKind::Sync);

    assert_ne!(CommandKind::Sync, CommandKind::Async);
}

#[test]
fn test_node_type_checking() {
    let node = Node::Command(&NODE_TEST_CMD);
    assert!(node.is_command());
    assert!(!node.is_directory());
    assert_eq!(node.name(), "test");
}


#[test]
fn handler_test_sync_handler() {
    let handler = TestHandler;
    let result = handler.execute_sync("test", &[]);
    assert!(result.is_ok());
    assert_eq!(result.unwrap().message.as_str(), "OK");

    let result = handler.execute_sync("unknown", &[]);
    assert_eq!(result, Err(CliError::CommandNotFound));
}


#[test]
fn handlers_test_sync_handler() {
    let handlers = TestHandlers;
    let result = handlers.execute_sync("test", &[]);
    assert!(result.is_ok());
    assert_eq!(result.unwrap().message.as_str(), "OK");

    let result = handlers.execute_sync("unknown", &[]);
    assert_eq!(result, Err(CliError::CommandNotFound));
}


/// An I/O that fails on its third write and records the others.
struct FailingIo {
    written: String,
    calls: usize,
}

impl CharIo for FailingIo {
    type Error = usize;

    fn get_char(&mut self) -> Result<Option<char>, usize> {
        Ok(None)
    }

    fn put_char(&mut self, c: char) -> Result<(), usize> {
        self.calls += 1;
        if self.calls == 3 {
            return Err(self.calls);
        }
        self.written.push(c);
        Ok(())
    }
}

#[test]
fn test_write_str_stops_at_first_error() {
    let mut io = FailingIo { written: String::new(), calls: 0 };
    assert_eq!(io.write_str("abcde"), Err(3));
    assert_eq!(io.written, "ab");
    assert_eq!(io.calls, 3);

    let mut io = FailingIo { written: String::new(), calls: 0 };
    assert_eq!(io.write_str("ab"), Ok(()));
    assert_eq!(io.written, "ab");
    assert_eq!(io.calls, 2);

    let mut io = FailingIo { written: String::new(), calls: 0 };
    assert_eq!(io.write_str(""), Ok(()));
    assert_eq!(io.calls, 0);
}

#[test]
fn test_report_labels() {
    let cases = [
        (CliError::CommandNotFound, "Command not found"),
        (CliError::InvalidPath, "Invalid path"),
        (CliError::InvalidArgumentCount { expected_min: 1, expected_max: 1, received: 0 }, "Expected 1 arguments, got 0"),
        (CliError::BufferFull, "Buffer full"),
        (CliError::PathTooDeep, "Path too deep"),
        (CliError::AsyncInSyncContext, "Async command requires process_char_async()"),
        (CliError::Timeout, "Unknown error"),
        (CliError::IoError, "Unknown error"),
        (CliError::AuthenticationFailed, "Unknown error"),
        (CliError::NotAuthenticated, "Unknown error"),
    ];
    for (e, text) in cases {
        let got: String = e.report_chars().into_iter().collect();
        assert_eq!(got, text);
    }
}
