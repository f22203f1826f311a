use repo_updater::pipeline::{
    decide, in_project_dir, Config, Next, Position, Project, RunConfig, Step,
};

fn project(url: &str, name: &str, test_cmd: Option<&str>) -> Project {
    Project {
        url: url.to_string(),
        name: name.to_string(),
        replace_prefix: "image:".to_string(),
        yaml_path: None,
        test_cmd: test_cmd.map(|c| c.to_string()),
    }
}

fn settings(keep_going: bool) -> RunConfig {
    RunConfig {
        update: "2.0.1".to_string(),
        author_name: "Jo".to_string(),
        author_email: "jo@x.org".to_string(),
        keep_going,
        quiet: false,
    }
}

/// Runs the whole batch, with `fails` saying which (project, step) fail.
fn trace(config: &Config, run: &RunConfig, fails: &[(usize, Step)]) -> Vec<Position> {
    let mut seen = Vec::new();
    let mut pos = config.start();
    while let Some(p) = pos {
        seen.push(p);
        let ok = !fails.contains(&(p.project, p.step));
        pos = config.advance(run, p, ok);
    }
    seen
}

fn steps_of(seen: &[Position], project: usize) -> Vec<Step> {
    seen.iter().filter(|p| p.project == project).map(|p| p.step).collect()
}

#[test]
fn one_project_end_to_end() {
    let config = Config { projects: vec![project("https://example/repo.git", "repo", None)] };
    let run = settings(false);
    let p = &config.projects[0];
    assert_eq!(p.target_file(), ".gitlab.yml");
    assert_eq!(
        repo_updater::commands::clone_args(&p.url),
        vec!["clone", "https://example/repo.git"]
    );
    let seen = trace(&config, &run, &[]);
    assert_eq!(
        steps_of(&seen, 0),
        vec![Step::Clone, Step::Rewrite, Step::Branch, Step::Add, Step::Commit, Step::Push]
    );
    let file = repo_updater::rewrite::rewrite_contents(
        "build:\n  image: node:18\n",
        &p.replace_prefix,
        &run.update,
    );
    assert_eq!(file, "build:\n  image: 2.0.1\n");
    assert_eq!(repo_updater::commands::branch_name(&run.update), "update-to-2-0-1");
    assert_eq!(repo_updater::commands::commit_message(&run.update), "Update to 2.0.1");
    assert_eq!(
        repo_updater::commands::push_args(&run.update),
        vec!["push", "origin", "update-to-2-0-1"]
    );
}

#[test]
fn configured_target_file_is_used() {
    let mut p = project("u", "n", None);
    p.yaml_path = Some("ci/pipeline.yml".to_string());
    assert_eq!(p.target_file(), "ci/pipeline.yml");
}

#[test]
fn failed_clone_halts_batch() {
    let config = Config {
        projects: vec![project("a", "a", None), project("b", "b", None)],
    };
    let seen = trace(&config, &settings(false), &[(0, Step::Clone)]);
    assert_eq!(seen, vec![Position { project: 0, step: Step::Clone }]);
}

#[test]
fn failed_commit_with_keep_going_still_pushes() {
    let config = Config { projects: vec![project("a", "a", None)] };
    let run = settings(true);
    let pos = Position { project: 0, step: Step::Commit };
    assert_eq!(config.advance(&run, pos, false), Some(Position { project: 0, step: Step::Push }));
    assert_eq!(decide(Step::Commit, false, false, true), Next::Run(Step::Push));
}

#[test]
fn keep_going_runs_every_step_despite_failures() {
    let config = Config {
        projects: vec![project("a", "a", None), project("b", "b", None)],
    };
    let fails = [(0, Step::Branch), (0, Step::Commit), (1, Step::Push)];
    let seen = trace(&config, &settings(true), &fails);
    let all = vec![Step::Clone, Step::Rewrite, Step::Branch, Step::Add, Step::Commit, Step::Push];
    assert_eq!(steps_of(&seen, 0), all);
    assert_eq!(steps_of(&seen, 1), all);
}

#[test]
fn keep_going_failed_clone_skips_to_next_project() {
    let config = Config {
        projects: vec![project("a", "a", Some("make test")), project("b", "b", None)],
    };
    let seen = trace(&config, &settings(true), &[(0, Step::Clone)]);
    assert_eq!(steps_of(&seen, 0), vec![Step::Clone]);
    assert_eq!(
        steps_of(&seen, 1),
        vec![Step::Clone, Step::Rewrite, Step::Branch, Step::Add, Step::Commit, Step::Push]
    );
    let pos = Position { project: 1, step: Step::Clone };
    assert_eq!(config.advance(&settings(true), pos, false), None);
    assert_eq!(decide(Step::Clone, false, true, true), Next::NextProject);
}

#[test]
fn failed_branch_moves_to_next_project() {
    let config = Config {
        projects: vec![project("a", "a", None), project("b", "b", None)],
    };
    let seen = trace(&config, &settings(false), &[(0, Step::Branch)]);
    assert_eq!(steps_of(&seen, 0), vec![Step::Clone, Step::Rewrite, Step::Branch]);
    assert_eq!(steps_of(&seen, 1).len(), 6);
}

#[test]
fn failed_push_of_last_project_ends_run() {
    let config = Config { projects: vec![project("a", "a", None)] };
    let pos = Position { project: 0, step: Step::Push };
    assert_eq!(config.advance(&settings(false), pos, false), None);
    assert_eq!(decide(Step::Add, false, true, false), Next::NextProject);
}

#[test]
fn test_command_runs_before_and_after_commit() {
    let config = Config { projects: vec![project("a", "repo", Some("make test"))] };
    let p = &config.projects[0];
    assert_eq!(p.test_invocation(), Some(vec!["make".to_string(), "test".to_string()]));
    let seen = trace(&config, &settings(false), &[]);
    assert_eq!(
        steps_of(&seen, 0),
        vec![
            Step::Clone,
            Step::PreTest,
            Step::Rewrite,
            Step::Branch,
            Step::Add,
            Step::Commit,
            Step::PostTest,
            Step::Push,
        ]
    );
    assert!(in_project_dir(Step::PreTest));
    assert!(in_project_dir(Step::PostTest));
    assert!(!in_project_dir(Step::Clone));
}

#[test]
fn failed_test_command_does_not_stop_project() {
    let config = Config { projects: vec![project("a", "repo", Some("make test"))] };
    let seen = trace(&config, &settings(false), &[(0, Step::PreTest), (0, Step::PostTest)]);
    assert_eq!(steps_of(&seen, 0).len(), 8);
}

#[test]
fn no_projects_no_steps() {
    let config = Config { projects: vec![] };
    assert_eq!(config.start(), None);
}

#[test]
fn no_test_command_no_invocation() {
    assert_eq!(project("a", "b", None).test_invocation(), None);
    assert!(!project("a", "b", None).has_test());
}
