//! The minimal instantiation: one access level, a silent I/O and a
//! handler with one command, running a shell.

use core::cmp::Ordering;

use nut_shell::auth::AccessLevel;
use nut_shell::bounded::BoundedString;
use nut_shell::config::MinimalConfig;
use nut_shell::error::CliError;
use nut_shell::minimal::{Level, MinHandlers, MinimalIo};
use nut_shell::shell::CliState;
use nut_shell::tree::{CommandKind, CommandMeta, Directory, Node};
use nut_shell::{CharIo, CommandHandler, Shell};

const STATUS: CommandMeta<Level> = CommandMeta {
    id: "status",
    name: "status",
    access_level: Level::User,
    kind: CommandKind::Sync,
    min_args: 0,
    max_args: 0,
    description: "Show status",
};

const ROOT: Directory<Level> = Directory {
    name: "",
    children: &[Node::Command(&STATUS)],
    access_level: Level::User,
};

#[test]
fn test_level_compares_equal() {
    assert_eq!(Level::User.partial_cmp(&Level::User), Some(Ordering::Equal));
    assert!(!(Level::User < Level::User));
    assert_eq!(Level::from_str("User"), Some(Level::User));
    assert_eq!(Level::from_str("Admin"), None);
    assert_eq!(Level::User.as_str(), "User");
}

#[test]
fn test_minimal_io_is_silent() {
    let mut io = MinimalIo;
    assert_eq!(io.get_char(), Ok(None));
    assert_eq!(io.put_char('x'), Ok(()));
    assert_eq!(io.write_str("abc"), Ok(()));
}

#[test]
fn test_min_handlers() {
    let h = MinHandlers;
    assert_eq!(h.execute_sync("status", &[]).unwrap().message.as_str(), "OK");
    assert_eq!(h.execute_sync("other", &[]), Err(CliError::CommandNotFound));
}

#[test]
fn test_minimal_shell_runs() {
    let mut shell: Shell<'static, Level, MinimalIo, MinHandlers, MinimalConfig> =
        Shell::new(&ROOT, MinHandlers, MinimalIo);
    shell.activate().unwrap();
    assert_eq!(shell.state(), CliState::LoggedIn);
    shell.process_char('?').unwrap();
    assert_eq!(shell.input(), "?");
    assert_eq!(shell.feed('\x08'), "\x08 \x08");
    let text: String = "status\n".chars().map(|c| shell.feed(c)).collect();
    assert_eq!(text, "status\r\nOK\r\n@/> ");
    let welcome = {
        let mut s: Shell<'static, Level, MinimalIo, MinHandlers, MinimalConfig> =
            Shell::new(&ROOT, MinHandlers, MinimalIo);
        s.start()
    };
    assert_eq!(welcome, "Welcome!@/> ");
}

#[test]
fn test_bounded_string_refuses_overflow() {
    let mut s = BoundedString::<4>::new();
    assert_eq!(s.capacity(), 4);
    assert!(s.is_empty());
    assert_eq!(s.push_str("ab"), Ok(()));
    assert_eq!(s.push('é'), Ok(()));
    assert_eq!(s.len(), 4);
    assert_eq!(s.push('x'), Err(()));
    assert_eq!(s.push_str("x"), Err(()));
    assert_eq!(s.as_str(), "abé");
    assert_eq!(s.pop(), Some('é'));
    assert_eq!(s.as_str(), "ab");
    s.clear();
    assert_eq!(s.as_str(), "");
    assert_eq!(s.pop(), None);
    assert!(BoundedString::<2>::from_chars(&['a', 'b', 'c']).is_none());
    assert_eq!(BoundedString::<3>::from_chars(&['a', 'b', 'c']).unwrap().as_str(), "abc");
}
