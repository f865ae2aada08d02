use aws_tool::batch::BatchRun;

fn ids(names: &[&str]) -> Vec<String> {
    names.iter().map(|s| s.to_string()).collect()
}

/// Runs a batch, failing the inputs in `failing`; returns the inputs the
/// action saw, the failures surfaced as they occurred, and the outcome.
fn run(inputs: Vec<String>, failing: &[&str]) -> (Vec<String>, Vec<(String, String)>, BatchRun) {
    let mut run = BatchRun::new(inputs);
    let mut seen = Vec::new();
    let mut surfaced = Vec::new();
    while let Some(input) = run.next_input() {
        seen.push(input.clone());
        let result = if failing.contains(&input.as_str()) {
            Err(format!("failed to stop {}", input))
        } else {
            Ok(())
        };
        if let Some(failure) = run.record(result) {
            surfaced.push(failure);
        }
    }
    (seen, surfaced, run)
}

#[test]
fn middle_failure_does_not_stop_batch() {
    let (seen, surfaced, run) = run(ids(&["A", "B", "C"]), &["B"]);
    assert_eq!(seen, ids(&["A", "B", "C"]));
    assert_eq!(surfaced, vec![("B".to_string(), "failed to stop B".to_string())]);
    assert!(run.is_complete());
    assert!(run.had_failures());
    assert_eq!(run.failures(), &surfaced);
    let outcome = run.finish();
    assert!(outcome.is_err());
    let failure = outcome.unwrap_err();
    assert_eq!(failure.failed, 1);
    assert_eq!(failure.message(), "one or more operations failed");
}

#[test]
fn all_succeeding_batch() {
    let (seen, surfaced, run) = run(ids(&["i-1", "i-2"]), &[]);
    assert_eq!(seen, ids(&["i-1", "i-2"]));
    assert!(surfaced.is_empty());
    assert!(!run.had_failures());
    assert!(run.finish().is_ok());
}

#[test]
fn empty_batch() {
    let (seen, surfaced, run) = run(Vec::new(), &["A"]);
    assert!(seen.is_empty());
    assert!(surfaced.is_empty());
    assert!(run.is_complete());
    assert!(!run.had_failures());
    assert!(run.finish().is_ok());
}

#[test]
fn every_failure_is_counted() {
    let (_, surfaced, run) = run(ids(&["a", "b", "c", "d"]), &["a", "d"]);
    assert_eq!(surfaced.len(), 2);
    assert_eq!(surfaced[0].0, "a");
    assert_eq!(surfaced[1].0, "d");
    assert_eq!(run.finish().unwrap_err().failed, 2);
}
