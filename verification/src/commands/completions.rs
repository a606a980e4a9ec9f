//! `slu completions <shell>` - a tab-completion script for the shell. slu is a
//! git superset, so each script delegates to git's own completion, which
//! already knows the branches, tags, remotes, subcommands and flags and asks
//! the repo live, and layers slu's own verbs on top. What is decided here:
//! the verbs, each shell's script, and the line that loads it from the
//! shell's rc file.

use crate::text::{
    chars_of, concat, join, join_in, lines, lines_in, owned_pairs, pair_views, same, seqs,
    str_pair_views, string_of, trim, trim_in,
};
use vstd::prelude::*;

verus! {

/// slu's own verbs (everything that is not git passthrough), with what each
/// does: one list, shared by all three scripts.
pub open spec fn verbs_of() -> Seq<(Seq<char>, Seq<char>)> {
    seq![
        ("search"@, "pickaxe a string through history"@),
        ("scan"@, "audit repos for leaked secrets"@),
        ("repos"@, "working-tree state across all repos"@),
        ("sync"@, "fetch (and optionally fast-forward) all repos"@),
        ("tidy"@, "find merged, safe-to-delete branches"@),
        ("each"@, "run a git command in every repo"@),
        ("trace"@, "a prettier history view"@),
        ("irepos"@, "interactive repo explorer (TUI)"@),
        ("ibranch"@, "interactive branch explorer (TUI)"@),
        ("ilog"@, "interactive log explorer (TUI)"@),
        ("iscan"@, "interactive history search (TUI)"@),
        ("istatus"@, "interactive status, stage and review (TUI)"@),
        ("itidy"@, "interactively delete finished branches (TUI)"@),
        ("update"@, "update slu itself"@),
        ("completions"@, "print a shell completion script"@),
    ]
}

pub fn verbs() -> (r: Vec<(String, String)>)
    ensures
        pair_views(r@) == verbs_of(),
{
    let rows = [
        ("search", "pickaxe a string through history"),
        ("scan", "audit repos for leaked secrets"),
        ("repos", "working-tree state across all repos"),
        ("sync", "fetch (and optionally fast-forward) all repos"),
        ("tidy", "find merged, safe-to-delete branches"),
        ("each", "run a git command in every repo"),
        ("trace", "a prettier history view"),
        ("irepos", "interactive repo explorer (TUI)"),
        ("ibranch", "interactive branch explorer (TUI)"),
        ("ilog", "interactive log explorer (TUI)"),
        ("iscan", "interactive history search (TUI)"),
        ("istatus", "interactive status, stage and review (TUI)"),
        ("itidy", "interactively delete finished branches (TUI)"),
        ("update", "update slu itself"),
        ("completions", "print a shell completion script"),
    ];
    let r = owned_pairs(&rows);
    assert(str_pair_views(rows@) =~= verbs_of());
    r
}

/// The shells a script is written for.
#[derive(Clone, Copy, PartialEq, Eq, Debug, Structural)]
pub enum Shell {
    Bash,
    Zsh,
    Fish,
}

impl Shell {
    /// The rc file this shell sources on startup, relative to `$HOME`.
    pub fn rc_file(self) -> (s: &'static str)
        ensures
            s@ == match self {
                Shell::Bash => ".bashrc"@,
                Shell::Zsh => ".zshrc"@,
                Shell::Fish => ".config/fish/config.fish"@,
            },
    {
        match self {
            Shell::Bash => ".bashrc",
            Shell::Zsh => ".zshrc",
            Shell::Fish => ".config/fish/config.fish",
        }
    }

    /// The one line that, in that rc file, loads slu's completion every
    /// startup.
    pub fn rc_line(self) -> (s: &'static str)
        ensures
            s@ == rc_line_of(self),
    {
        match self {
            Shell::Bash => "source <(slu completions bash)",
            Shell::Zsh => "source <(slu completions zsh)",
            Shell::Fish => "slu completions fish | source",
        }
    }

    /// The completion script for this shell.
    pub fn script(self) -> (s: String)
        ensures
            s@ == script_of(self),
    {
        match self {
            Shell::Bash => bash(),
            Shell::Zsh => zsh(),
            Shell::Fish => fish(),
        }
    }
}

pub open spec fn rc_line_of(shell: Shell) -> Seq<char> {
    match shell {
        Shell::Bash => "source <(slu completions bash)"@,
        Shell::Zsh => "source <(slu completions zsh)"@,
        Shell::Fish => "slu completions fish | source"@,
    }
}

/// The verbs' names, space-separated, for bash's word list.
pub open spec fn verb_names_of() -> Seq<char> {
    join(verbs_of().map_values(|v: (Seq<char>, Seq<char>)| v.0), seq![' '])
}

/// One line per verb: a zsh `_describe` entry, or a fish `complete` rule.
pub open spec fn zsh_entry(v: (Seq<char>, Seq<char>)) -> Seq<char> {
    "        '"@ + v.0 + ":"@ + v.1 + "'"@
}

pub open spec fn fish_entry(v: (Seq<char>, Seq<char>)) -> Seq<char> {
    "complete -c slu -n __fish_use_subcommand -a "@ + v.0 + " -d '"@ + v.1 + "'"@
}

pub open spec fn script_of(shell: Shell) -> Seq<char> {
    match shell {
        Shell::Bash => BASH_HEAD@ + verb_names_of() + BASH_TAIL@,
        Shell::Zsh => ZSH_HEAD@ + join(verbs_of().map_values(|v: (Seq<char>, Seq<char>)| zsh_entry(v)), seq!['\n'])
            + ZSH_TAIL@,
        Shell::Fish => FISH_HEAD@ + join(verbs_of().map_values(|v: (Seq<char>, Seq<char>)| fish_entry(v)), seq!['\n'])
            + FISH_TAIL@,
    }
}

/// Bash: delegate to git's completion (`__git_main`), then add slu's verbs
/// when completing the first word. It needs git's bash completion loaded
/// (the `bash-completion` package, or `git-completion.bash` sourced).
pub const BASH_HEAD: &'static str = r#"# slu bash completion - `slu` is a git superset, so this reuses git's own
# completion (branches, tags, remotes, every git subcommand and flag) and adds
# slu's verbs on top.
#   add to ~/.bashrc:  source <(slu completions bash)

# git's bash completion is normally lazy-loaded - it only kicks in the first time
# you complete `git` itself. We complete `slu`, which never triggers that, so
# `__git_main` would never exist and there'd be nothing to delegate to. Force it
# to load up front: ask bash-completion's loader first, then fall back to known
# install paths.
if ! declare -F __git_main >/dev/null 2>&1; then
    declare -F _completion_loader >/dev/null 2>&1 && _completion_loader git >/dev/null 2>&1
fi
if ! declare -F __git_main >/dev/null 2>&1; then
    for __slu_gitc in \
        /usr/share/bash-completion/completions/git \
        /etc/bash_completion.d/git \
        "$HOME/.local/share/bash-completion/completions/git"; do
        [ -r "$__slu_gitc" ] && . "$__slu_gitc" && break
    done
    unset __slu_gitc
fi

# Let git set up its proper completion wrapper for `slu` (handles : and = in
# words correctly); harmless if git's completion still isn't loaded.
if declare -F __git_complete >/dev/null 2>&1; then
    __git_complete slu __git_main >/dev/null 2>&1
fi

_slu() {
    # Everything git knows: branches, refs, subcommands, flags.
    if declare -F __git_wrap__git_main >/dev/null 2>&1; then
        __git_wrap__git_main
    elif declare -F __git_main >/dev/null 2>&1; then
        __git_main
    fi
    # slu's own verbs, only at the first argument.
    if [ "${COMP_CWORD:-0}" -eq 1 ]; then
        COMPREPLY+=( $(compgen -W '"#;

pub const BASH_TAIL: &'static str = r#"' -- "${COMP_WORDS[COMP_CWORD]}") )
    fi
}

complete -o bashdefault -o default -o nospace -F _slu slu 2>/dev/null \
    || complete -o default -o nospace -F _slu slu
"#;

/// Zsh: delegate to zsh's bundled `_git` (forcing the git service), then
/// offer slu's verbs at the first argument via `_describe`.
pub const ZSH_HEAD: &'static str = r#"#compdef slu
# slu zsh completion - `slu` is a git superset, so this reuses zsh's bundled
# git completion (branches, tags, remotes, flags) and adds slu's verbs on top.
#   add to ~/.zshrc:  source <(slu completions zsh)

_slu() {
    # slu's own verbs, only at the first argument.
    if (( CURRENT == 2 )); then
        local -a slu_cmds
        slu_cmds=(
"#;

pub const ZSH_TAIL: &'static str = r#"
        )
        _describe -t slu-commands 'slu command' slu_cmds
    fi
    # Everything git knows: complete as if we were git.
    local service=git
    _git
}

compdef _slu slu
"#;

/// Fish: `complete --wraps git` makes slu inherit all of git's completions
/// (live branch names included); slu's verbs are added at the first
/// argument.
pub const FISH_HEAD: &'static str = r#"# slu fish completion - `slu` is a git superset, so it inherits all of git's
# completions (branches, tags, remotes, flags) and adds slu's verbs on top.
#   add to ~/.config/fish/config.fish:  slu completions fish | source

complete -c slu -w git
"#;

pub const FISH_TAIL: &'static str = r#"
"#;

/// One line per verb, `entry` of each, joined by newlines (`zsh`) or spaces.
fn entries(zsh: bool, fish: bool) -> (s: Vec<char>)
    ensures
        zsh ==> s@ == join(verbs_of().map_values(|v: (Seq<char>, Seq<char>)| zsh_entry(v)), seq!['\n']),
        !zsh && fish ==> s@ == join(verbs_of().map_values(|v: (Seq<char>, Seq<char>)| fish_entry(v)), seq!['\n']),
        !zsh && !fish ==> s@ == verb_names_of(),
{
    let vs = verbs();
    let ghost vv = pair_views(vs@);
    let mut parts: Vec<Vec<char>> = Vec::new();
    let mut k: usize = 0;
    while k < vs.len()
        invariant
            k <= vs@.len(),
            vv == pair_views(vs@),
            vv == verbs_of(),
            zsh ==> seqs(parts@) == vv.take(k as int).map_values(|v: (Seq<char>, Seq<char>)| zsh_entry(v)),
            !zsh && fish ==> seqs(parts@) == vv.take(k as int).map_values(|v: (Seq<char>, Seq<char>)| fish_entry(v)),
            !zsh && !fish ==> seqs(parts@) == vv.take(k as int).map_values(|v: (Seq<char>, Seq<char>)| v.0),
        decreases vs@.len() - k,
    {
        let name = chars_of(vs[k].0.as_str());
        let desc = chars_of(vs[k].1.as_str());
        let ghost pv = vv[k as int];
        assert(pv == (vs@[k as int].0@, vs@[k as int].1@));
        let line = if zsh {
            concat(&concat(&concat(&concat(&chars_of("        '"), &name), &chars_of(":")), &desc), &chars_of("'"))
        } else if fish {
            concat(
                &concat(&concat(&concat(&chars_of("complete -c slu -n __fish_use_subcommand -a "), &name), &chars_of(" -d '")), &desc),
                &chars_of("'"),
            )
        } else {
            name
        };
        let ghost before = seqs(parts@);
        parts.push(line);
        assert(seqs(parts@) =~= before.push(line@));
        assert(vv.take(k + 1) =~= vv.take(k as int).push(pv));
        assert(vv.take(k + 1).map_values(|v: (Seq<char>, Seq<char>)| zsh_entry(v)) =~= vv.take(k as int).map_values(|v: (Seq<char>, Seq<char>)| zsh_entry(v)).push(zsh_entry(pv)));
        assert(vv.take(k + 1).map_values(|v: (Seq<char>, Seq<char>)| fish_entry(v)) =~= vv.take(k as int).map_values(|v: (Seq<char>, Seq<char>)| fish_entry(v)).push(fish_entry(pv)));
        assert(vv.take(k + 1).map_values(|v: (Seq<char>, Seq<char>)| v.0) =~= vv.take(k as int).map_values(|v: (Seq<char>, Seq<char>)| v.0).push(pv.0));
        k = k + 1;
    }
    assert(vv.take(vs@.len() as int) =~= vv);
    if zsh || fish {
        let nl = ['\n'];
        assert(nl@ =~= seq!['\n']);
        join_in(&parts, &nl)
    } else {
        let sp = [' '];
        assert(sp@ =~= seq![' ']);
        join_in(&parts, &sp)
    }
}

/// The verbs' names, space-separated.
pub fn verb_names() -> (s: String)
    ensures
        s@ == verb_names_of(),
{
    string_of(&entries(false, false))
}

fn bash() -> (s: String)
    ensures
        s@ == script_of(Shell::Bash),
{
    string_of(&concat(&concat(&chars_of(BASH_HEAD), &entries(false, false)), &chars_of(BASH_TAIL)))
}

fn zsh() -> (s: String)
    ensures
        s@ == script_of(Shell::Zsh),
{
    string_of(&concat(&concat(&chars_of(ZSH_HEAD), &entries(true, false)), &chars_of(ZSH_TAIL)))
}

fn fish() -> (s: String)
    ensures
        s@ == script_of(Shell::Fish),
{
    string_of(&concat(&concat(&chars_of(FISH_HEAD), &entries(false, true)), &chars_of(FISH_TAIL)))
}

/// Whether an rc file already loads the completion: one of its lines, blanks
/// around it aside, is the loader line. Then it is not added twice.
pub open spec fn set_up_in(existing: Seq<char>, shell: Shell) -> bool {
    exists|i: int| 0 <= i < lines(existing).len() && trim(#[trigger] lines(existing)[i]) == rc_line_of(shell)
}

pub fn already_set_up(existing: &str, shell: Shell) -> (b: bool)
    ensures
        b == set_up_in(existing@, shell),
{
    let ls = lines_in(&chars_of(existing));
    let want = chars_of(shell.rc_line());
    let mut k: usize = 0;
    while k < ls.len()
        invariant
            k <= ls@.len(),
            seqs(ls@) == lines(existing@),
            want@ == rc_line_of(shell),
            forall|i: int| 0 <= i < k ==> trim(#[trigger] lines(existing@)[i]) != rc_line_of(shell),
        decreases ls@.len() - k,
    {
        assert(lines(existing@)[k as int] == ls@[k as int]@);
        if same(&trim_in(&ls[k]), &want) {
            return true;
        }
        k = k + 1;
    }
    false
}

/// What is appended to the rc file: a comment naming it, and the loader line.
pub open spec fn rc_block_of(shell: Shell) -> Seq<char> {
    "\n# sluuz shell completion\n"@ + rc_line_of(shell) + "\n"@
}

pub fn rc_block(shell: Shell) -> (s: String)
    ensures
        s@ == rc_block_of(shell),
{
    string_of(&concat(&concat(&chars_of("\n# sluuz shell completion\n"), &chars_of(shell.rc_line())), &chars_of("\n")))
}

} // verus!
