use atuin_z::cli::{Action, Cli, Command, Shell, UsageError};
use atuin_z::frecency::Mode;
use atuin_z::shell::{init, BASH_INIT, FISH_INIT, ZSH_INIT};

fn plain() -> Cli {
    Cli {
        list: false,
        rank: false,
        time: false,
        current: false,
        exclude: false,
        db: None,
        command: None,
        keywords: Vec::new(),
    }
}

#[test]
fn mode_defaults_to_frecency() {
    assert_eq!(plain().mode(), Mode::Frecency);
    let cli = Cli { list: true, current: true, ..plain() };
    assert_eq!(cli.mode(), Mode::Frecency);
}

#[test]
fn mode_follows_the_flags() {
    let cli = Cli { rank: true, ..plain() };
    assert_eq!(cli.mode(), Mode::Frequency);
    let cli = Cli { time: true, ..plain() };
    assert_eq!(cli.mode(), Mode::Recency);
}

#[test]
fn mode_rank_goes_before_time() {
    let cli = Cli { rank: true, time: true, ..plain() };
    assert_eq!(cli.mode(), Mode::Frequency);
}

#[test]
fn action_defaults_to_jump() {
    assert_eq!(plain().action(), Ok(Action::Jump));
    let cli = Cli { keywords: vec!["proj".to_string()], list: true, ..plain() };
    assert_eq!(cli.action(), Ok(Action::Jump));
}

#[test]
fn action_init_goes_before_everything() {
    let cli = Cli {
        command: Some(Command::Init { shell: Shell::Fish }),
        exclude: true,
        ..plain()
    };
    assert_eq!(cli.action(), Ok(Action::Init(Shell::Fish)));
}

#[test]
fn action_exclude_needs_a_path() {
    let cli = Cli { exclude: true, ..plain() };
    assert_eq!(cli.action(), Err(UsageError::ExcludeWithoutPath));
    assert_eq!(
        UsageError::ExcludeWithoutPath.message(),
        "atuin-z -x requires a path argument"
    );
    let cli = Cli { exclude: true, keywords: vec!["/tmp".to_string()], ..plain() };
    assert_eq!(cli.action(), Ok(Action::Exclude));
}

#[test]
fn init_gives_each_shell_its_own_script() {
    assert_eq!(init(&Shell::Bash), BASH_INIT);
    assert_eq!(init(&Shell::Zsh), ZSH_INIT);
    assert_eq!(init(&Shell::Fish), FISH_INIT);
    assert_ne!(init(&Shell::Bash), init(&Shell::Zsh));
    assert_ne!(init(&Shell::Bash), init(&Shell::Fish));
}

#[test]
fn init_scripts_define_the_jump_function() {
    assert!(init(&Shell::Bash).starts_with("z() {"));
    assert!(init(&Shell::Zsh).starts_with("z() {"));
    assert!(init(&Shell::Fish).starts_with("function z"));
    for shell in [Shell::Bash, Shell::Zsh, Shell::Fish] {
        let script = init(&shell);
        assert!(script.contains("ATUIN_Z_PWD"));
        assert!(script.contains("atuin-z"));
        assert!(script.ends_with('\n'));
    }
}
