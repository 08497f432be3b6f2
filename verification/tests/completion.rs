//! Tab completion among the children of a directory.

use nut_shell::auth::{AccessLevel, User};
use nut_shell::tree::completion::{find_common_prefix, suggest_completions, CompletionResult};
use nut_shell::tree::{CommandKind, CommandMeta, Directory, Node};
// Test access level
#[derive(Debug, Copy, Clone, PartialEq, Eq, PartialOrd, Ord)]
enum TestLevel {
    Guest,
    User,
    Admin,
}

impl AccessLevel for TestLevel {
    fn from_str(s: &str) -> Option<Self> {
        match s {
            "Guest" => Some(Self::Guest),
            "User" => Some(Self::User),
            "Admin" => Some(Self::Admin),
            _ => None,
        }
    }

    fn as_str(&self) -> &'static str {
        match self {
            Self::Guest => "Guest",
            Self::User => "User",
            Self::Admin => "Admin",
        }
    }
}

// Test fixtures
const CMD_STATUS: CommandMeta<TestLevel> = CommandMeta {
    id: "status",
    name: "status",
    description: "Show status",
    access_level: TestLevel::User,
    kind: CommandKind::Sync,
    min_args: 0,
    max_args: 0,
};

const CMD_START: CommandMeta<TestLevel> = CommandMeta {
    id: "start",
    name: "start",
    description: "Start service",
    access_level: TestLevel::User,
    kind: CommandKind::Sync,
    min_args: 0,
    max_args: 1,
};

const CMD_STOP: CommandMeta<TestLevel> = CommandMeta {
    id: "stop",
    name: "stop",
    description: "Stop service",
    access_level: TestLevel::User,
    kind: CommandKind::Sync,
    min_args: 0,
    max_args: 0,
};

const CMD_REBOOT: CommandMeta<TestLevel> = CommandMeta {
    id: "reboot",
    name: "reboot",
    description: "Reboot system",
    access_level: TestLevel::Admin,
    kind: CommandKind::Sync,
    min_args: 0,
    max_args: 0,
};

const DIR_SYSTEM: Directory<TestLevel> = Directory {
    name: "system",
    children: &[],
    access_level: TestLevel::User,
};

const DIR_SERVICES: Directory<TestLevel> = Directory {
    name: "services",
    children: &[],
    access_level: TestLevel::User,
};

const TEST_DIR: Directory<TestLevel> = Directory {
    name: "test",
    children: &[
        Node::Command(&CMD_STATUS),
        Node::Command(&CMD_START),
        Node::Command(&CMD_STOP),
        Node::Command(&CMD_REBOOT),
        Node::Directory(&DIR_SYSTEM),
        Node::Directory(&DIR_SERVICES),
    ],
    access_level: TestLevel::Guest,
};

#[test]
fn test_single_match_command() {
    let result = suggest_completions::<TestLevel, 16>(&TEST_DIR, "reb", None).unwrap();

    assert_eq!(result.completion.as_str(), "reboot");
    assert!(result.is_complete);
    assert!(!result.is_directory);
    assert_eq!(result.all_matches.len(), 1);
    assert_eq!(result.all_matches[0].as_str(), "reboot");
}

#[test]
fn test_single_match_directory() {
    let result = suggest_completions::<TestLevel, 16>(&TEST_DIR, "syst", None).unwrap();

    assert_eq!(result.completion.as_str(), "system/");
    assert!(result.is_complete);
    assert!(result.is_directory);
    assert_eq!(result.all_matches.len(), 1);
}

#[test]
fn test_multiple_matches_with_common_prefix() {
    let result = suggest_completions::<TestLevel, 16>(&TEST_DIR, "st", None).unwrap();

    // Common prefix is "st" for "status", "start", "stop"
    assert_eq!(result.completion.as_str(), "st");
    assert!(!result.is_complete);
    assert!(!result.is_directory);
    assert_eq!(result.all_matches.len(), 3);

    // Check all matches present (verify each is in the result)
    let match_names: [&str; 3] = ["status", "start", "stop"];
    for expected in &match_names {
        assert!(
            result.all_matches.iter().any(|m| m.as_str() == *expected),
            "Expected to find '{}' in matches",
            expected
        );
    }
}

#[test]
fn test_multiple_matches_directories() {
    let result = suggest_completions::<TestLevel, 16>(&TEST_DIR, "s", None).unwrap();

    // Should match: status, start, stop, system, services
    assert_eq!(result.completion.as_str(), "s");
    assert!(!result.is_complete);
    assert_eq!(result.all_matches.len(), 5);
}

#[test]
fn test_no_matches() {
    let result = suggest_completions::<TestLevel, 16>(&TEST_DIR, "xyz", None).unwrap();

    assert_eq!(result.completion.as_str(), "");
    assert!(!result.is_complete);
    assert!(!result.is_directory);
    assert_eq!(result.all_matches.len(), 0);
}

#[test]
fn test_exact_match_command() {
    let result = suggest_completions::<TestLevel, 16>(&TEST_DIR, "status", None).unwrap();

    assert_eq!(result.completion.as_str(), "status");
    assert!(result.is_complete);
    assert!(!result.is_directory);
    assert_eq!(result.all_matches.len(), 1);
}

#[test]
fn test_exact_match_directory() {
    let result = suggest_completions::<TestLevel, 16>(&TEST_DIR, "system", None).unwrap();

    assert_eq!(result.completion.as_str(), "system/");
    assert!(result.is_complete);
    assert!(result.is_directory);
    assert_eq!(result.all_matches.len(), 1);
}

#[test]
fn test_empty_input_matches_all() {
    let result = suggest_completions::<TestLevel, 16>(&TEST_DIR, "", None).unwrap();

    // Empty input matches everything
    assert!(!result.is_complete);
    assert_eq!(result.all_matches.len(), 6); // 4 commands + 2 directories
}

#[test]
fn test_case_sensitive_matching() {
    let result = suggest_completions::<TestLevel, 16>(&TEST_DIR, "ST", None).unwrap();

    // No matches (case-sensitive)
    assert_eq!(result.completion.as_str(), "");
    assert!(!result.is_complete);
    assert_eq!(result.all_matches.len(), 0);
}

#[test]
fn test_access_control_filtering() {
    // Create guest user (no access to Admin commands)
    let guest_user = User {
        username: String::from("guest"),
        access_level: TestLevel::Guest,
        password_hash: [0u8; 32],
        salt: [0u8; 16],
    };

    // "r" should NOT match "reboot" (Admin only) for guest user
    let result =
        suggest_completions::<TestLevel, 16>(&TEST_DIR, "r", Some(&guest_user)).unwrap();

    assert_eq!(result.completion.as_str(), "");
    assert!(!result.is_complete);
    assert_eq!(result.all_matches.len(), 0);

    // Create admin user
    let admin_user = User {
        username: String::from("admin"),
        access_level: TestLevel::Admin,
        password_hash: [0u8; 32],
        salt: [0u8; 16],
    };

    // "r" should match "reboot" for admin user
    let result =
        suggest_completions::<TestLevel, 16>(&TEST_DIR, "r", Some(&admin_user)).unwrap();

    assert_eq!(result.completion.as_str(), "reboot");
    assert!(result.is_complete);
    assert_eq!(result.all_matches.len(), 1);
}

#[test]
fn test_common_prefix_calculation() {
    // Test internal helper
    let matches = [("start", false), ("status", false), ("stop", false)];
    let prefix = find_common_prefix(&matches);
    assert_eq!(prefix, "st");

    let matches = [("network", false), ("netscan", false)];
    let prefix = find_common_prefix(&matches);
    assert_eq!(prefix, "net");

    let matches = [("abc", false), ("xyz", false)];
    let prefix = find_common_prefix(&matches);
    assert_eq!(prefix, ""); // No common prefix
}


fn match_names(r: &CompletionResult<16>) -> Vec<String> {
    r.all_matches.iter().map(|m| String::from(m.as_str())).collect()
}

fn is_subsequence(a: &[String], b: &[String]) -> bool {
    let mut j = 0;
    for x in a {
        while j < b.len() && &b[j] != x {
            j += 1;
        }
        if j == b.len() {
            return false;
        }
        j += 1;
    }
    true
}

#[test]
fn test_completion_narrows_as_input_grows() {
    let admin = User {
        username: String::from("admin"),
        access_level: TestLevel::Admin,
        password_hash: [0u8; 32],
        salt: [0u8; 16],
    };
    let short = suggest_completions::<TestLevel, 16>(&TEST_DIR, "s", Some(&admin)).unwrap();
    let long = suggest_completions::<TestLevel, 16>(&TEST_DIR, "st", Some(&admin)).unwrap();
    let short_names = match_names(&short);
    let long_names = match_names(&long);
    assert_eq!(short_names, vec!["status", "start", "stop", "system", "services"]);
    assert_eq!(long_names, vec!["status", "start", "stop"]);
    assert!(is_subsequence(&long_names, &short_names));
}

#[test]
fn test_completion_narrows_as_level_falls() {
    let guest = User {
        username: String::from("guest"),
        access_level: TestLevel::Guest,
        password_hash: [0u8; 32],
        salt: [0u8; 16],
    };
    let user = User {
        username: String::from("user"),
        access_level: TestLevel::User,
        password_hash: [0u8; 32],
        salt: [0u8; 16],
    };
    let g = match_names(&suggest_completions::<TestLevel, 16>(&TEST_DIR, "", Some(&guest)).unwrap());
    let u = match_names(&suggest_completions::<TestLevel, 16>(&TEST_DIR, "", Some(&user)).unwrap());
    let n = match_names(&suggest_completions::<TestLevel, 16>(&TEST_DIR, "", None).unwrap());
    assert!(g.is_empty());
    assert_eq!(u, vec!["status", "start", "stop", "system", "services"]);
    assert_eq!(n, vec!["status", "start", "stop", "reboot", "system", "services"]);
    assert!(is_subsequence(&g, &u));
    assert!(is_subsequence(&u, &n));
}
