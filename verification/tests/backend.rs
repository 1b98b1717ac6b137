use std::path::{Path, PathBuf};

use otty_surface::ui::backend::{BackendGeneration, LocalBackend, LocalOptions};

#[test]
fn backend_generation_is_monotonic() {
    let first = BackendGeneration::initial();
    let second = first.next();

    assert_eq!(first.value(), 1);
    assert_eq!(second.value(), 2);
    assert_ne!(first, second);
}

#[test]
fn local_backend_preserves_launch_options() {
    let options = LocalOptions::new("/bin/sh")
        .with_arg("-l")
        .with_env("TERM", "xterm-256color")
        .with_working_directory("/tmp");
    let backend = LocalBackend::new(options);

    assert_eq!(backend.options().program(), "/bin/sh");
    assert_eq!(backend.options().args(), ["-l"]);
    assert_eq!(backend.options().envs(), [("TERM", "xterm-256color")]);
    assert_eq!(
        backend.options().working_directory().map(Path::new),
        Some(PathBuf::from("/tmp").as_path())
    );
}

#[test]
fn default_local_backend_uses_the_portable_system_shell() {
    assert_eq!(LocalOptions::default().program(), "/bin/sh");
}

#[test]
fn backend_options_replace_environment_and_preserve_cancellation() {
    let local = LocalBackend::new(
        LocalOptions::new("/bin/sh")
            .with_env("TERM", "xterm")
            .with_env("TERM", "xterm-256color"),
    );

    assert_eq!(local.options().envs(), [("TERM", "xterm-256color")]);
}

#[test]
fn environment_overrides_keep_insertion_order() {
    let options = LocalOptions::new("zsh")
        .with_env("A", "1")
        .with_env("B", "2")
        .with_env("A", "3");

    assert_eq!(options.envs(), [("A", "3"), ("B", "2")]);
    assert_eq!(options.working_directory(), None);
}

#[test]
fn later_working_directory_replaces_earlier_one() {
    let options = LocalOptions::new("zsh")
        .with_working_directory("/tmp")
        .with_env("A", "1")
        .with_working_directory("/home");

    assert_eq!(options.working_directory(), Some("/home"));
    assert_eq!(options.envs(), [("A", "1")]);
}

#[test]
fn generation_saturates_at_the_limit() {
    let mut generation = BackendGeneration::initial();
    for _ in 0..5 {
        generation = generation.next();
    }
    assert_eq!(generation.value(), 6);
}
