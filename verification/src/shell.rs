use vstd::prelude::*;
use crate::cli::Shell;

verus! {

/// The function `z` for bash: it runs the program with the current
/// directory in `ATUIN_Z_PWD` and changes to the directory that comes back.
pub const BASH_INIT: &'static str =
    "z() {
    local arg target
    for arg in \"$@\"; do
        case \"$arg\" in
            -l|--list|-x|--exclude|-h|--help|-V|--version)
                ATUIN_Z_PWD=\"$PWD\" command atuin-z \"$@\"
                return
                ;;
        esac
    done
    target=\"$(ATUIN_Z_PWD=\"$PWD\" command atuin-z \"$@\")\" || return
    if [ -n \"$target\" ]; then
        builtin cd -- \"$target\"
    fi
}
";

/// The function `z` for zsh.
pub const ZSH_INIT: &'static str =
    "z() {
    local arg target
    for arg in \"$@\"; do
        case \"$arg\" in
            -l|--list|-x|--exclude|-h|--help|-V|--version)
                ATUIN_Z_PWD=\"$PWD\" command atuin-z \"$@\"
                return
                ;;
        esac
    done
    target=\"$(ATUIN_Z_PWD=\"$PWD\" command atuin-z \"$@\")\" || return
    if [[ -n \"$target\" ]]; then
        builtin cd -- \"$target\"
    fi
}
";

/// The function `z` for fish.
pub const FISH_INIT: &'static str =
    "function z
    for arg in $argv
        switch $arg
            case -l --list -x --exclude -h --help -V --version
                env ATUIN_Z_PWD=$PWD atuin-z $argv
                return
        end
    end
    set -l target (env ATUIN_Z_PWD=$PWD atuin-z $argv)
    or return
    if test -n \"$target\"
        builtin cd -- $target
    end
end
";

/// The text that wires the program into a shell.
pub open spec fn init_script(shell: Shell) -> Seq<char> {
    match shell {
        Shell::Bash => BASH_INIT@,
        Shell::Zsh => ZSH_INIT@,
        Shell::Fish => FISH_INIT@,
    }
}

/// The shell function to evaluate in the given shell.
pub fn init(shell: &Shell) -> (script: &'static str)
    ensures
        script@ == init_script(*shell),
{
    match shell {
        Shell::Bash => BASH_INIT,
        Shell::Zsh => ZSH_INIT,
        Shell::Fish => FISH_INIT,
    }
}

} // verus!
