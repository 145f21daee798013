//! `wt shellinit [shell]`: the shell integration function.
use vstd::prelude::*;

verus! {

/// The shells that `shellinit` supports.
#[derive(Clone, Copy, Debug, PartialEq, Eq, Structural)]
pub enum Shell {
    Zsh,
    Bash,
    Fish,
}

impl Default for Shell {
    fn default() -> (s: Shell)
        ensures
            s == Shell::Zsh,
    {
        Shell::Zsh
    }
}

/// The function for zsh and bash: `wt cd <name>` changes to the worktree and
/// `wt new ...` changes to the new worktree.
pub const ZSH_BASH_FUNC: &'static str = r#"wt() {
  case "$1" in
    cd) builtin cd "$(command wt path "${2:-}")" || return ;;
    new) local p; p="$(command wt new "${@:2}" --print-path)" && builtin cd "$p" ;;
    *) command wt "$@" ;;
  esac
}"#;

/// The same function for fish.
pub const FISH_FUNC: &'static str = r#"function wt
  switch $argv[1]
    case cd
      builtin cd (command wt path $argv[2])
    case new
      set -l p (command wt new $argv[2..] --print-path)
      and builtin cd $p
    case '*'
      command wt $argv
  end
end"#;

/// The shell integration function for `shell` (printed followed by a newline).
pub fn run(shell: &Shell) -> (script: &'static str)
    ensures
        (*shell == Shell::Zsh || *shell == Shell::Bash) ==> script@ == ZSH_BASH_FUNC@,
        *shell == Shell::Fish ==> script@ == FISH_FUNC@,
{
    match shell {
        Shell::Zsh | Shell::Bash => ZSH_BASH_FUNC,
        Shell::Fish => FISH_FUNC,
    }
}

} // verus!
