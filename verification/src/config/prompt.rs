//! Prompt configuration: the `[prompt]` table and its module sections.
use vstd::prelude::*;
use crate::text::owned;
use crate::vars::VarMap;

verus! {

/// `[prompt.character]`: the symbol shown after a successful or failed command.
#[derive(Debug, Clone)]
pub struct CharacterSection {
    pub success_symbol: String,
    pub error_symbol: String,
}

impl Default for CharacterSection {
    fn default() -> (r: Self)
        ensures
            r.success_symbol@ == "\x1b[1;32m\u{276f}\x1b[0m "@,
            r.error_symbol@ == "\x1b[1;31m\u{276f}\x1b[0m "@,
    {
        CharacterSection {
            success_symbol: owned("\x1b[1;32m\u{276f}\x1b[0m "),
            error_symbol: owned("\x1b[1;31m\u{276f}\x1b[0m "),
        }
    }
}

/// `[prompt.directory]`.
#[derive(Debug, Clone)]
pub struct DirectorySection {
    pub home_symbol: String,
    pub read_only: String,
    pub style: String,
    pub truncation_length: usize,
    pub truncation_symbol: String,
    pub format: String,
    /// Replacements applied to the shown path, in order.
    pub substitutions: VarMap,
}

impl Default for DirectorySection {
    fn default() -> (r: Self)
        ensures
            r.home_symbol@ == "~"@,
            r.read_only@ == " \u{f033e}"@,
            r.style@ == "bold blue"@,
            r.truncation_length == 3,
            r.truncation_symbol@ == ".../"@,
            r.format@ == "[$path]($style) "@,
            r.substitutions.pairs().len() == 0,
    {
        DirectorySection {
            home_symbol: owned("~"),
            read_only: owned(" \u{f033e}"),
            style: owned("bold blue"),
            truncation_length: 3,
            truncation_symbol: owned(".../"),
            format: owned("[$path]($style) "),
            substitutions: VarMap::new(),
        }
    }
}

/// `[prompt.cmd_duration]`.
#[derive(Debug, Clone)]
pub struct CmdDurationSection {
    pub min_time: u64,
    pub format: String,
}

impl Default for CmdDurationSection {
    fn default() -> (r: Self)
        ensures
            r.min_time == 2000,
            r.format@ == "took [$duration]($style) "@,
    {
        CmdDurationSection { min_time: 2000, format: owned("took [$duration]($style) ") }
    }
}

/// `[prompt.git_branch]`.
#[derive(Debug, Clone)]
pub struct GitBranchSection {
    pub style: String,
    pub symbol: String,
    pub truncation_length: usize,
    pub truncation_symbol: String,
    pub format: String,
}

impl Default for GitBranchSection {
    fn default() -> (r: Self)
        ensures
            r.style@ == "bold purple"@,
            r.symbol@ == "\u{e0a0} "@,
            r.truncation_length == usize::MAX,
            r.truncation_symbol@ == "\u{2026}"@,
            r.format@ == "on [$symbol$branch]($style) "@,
    {
        GitBranchSection {
            style: owned("bold purple"),
            symbol: owned("\u{e0a0} "),
            truncation_length: usize::MAX,
            truncation_symbol: owned("\u{2026}"),
            format: owned("on [$symbol$branch]($style) "),
        }
    }
}

/// `[prompt.git_status]`.
#[derive(Debug, Clone)]
pub struct GitStatusSection {
    pub conflicted: String,
    pub ahead: String,
    pub behind: String,
    pub diverged: String,
    pub untracked: String,
    pub stashed: String,
    pub modified: String,
    pub staged: String,
    pub renamed: String,
    pub deleted: String,
}

impl Default for GitStatusSection {
    fn default() -> (r: Self)
        ensures
            r.conflicted@ == "="@,
            r.ahead@ == "\u{21e1}"@,
            r.behind@ == "\u{21e3}"@,
            r.diverged@ == "\u{21d5}"@,
            r.untracked@ == "?"@,
            r.stashed@ == "$"@,
            r.modified@ == "!"@,
            r.staged@ == "+"@,
            r.renamed@ == "\u{bb}"@,
            r.deleted@ == "\u{2718}"@,
    {
        GitStatusSection {
            conflicted: owned("="),
            ahead: owned("\u{21e1}"),
            behind: owned("\u{21e3}"),
            diverged: owned("\u{21d5}"),
            untracked: owned("?"),
            stashed: owned("$"),
            modified: owned("!"),
            staged: owned("+"),
            renamed: owned("\u{bb}"),
            deleted: owned("\u{2718}"),
        }
    }
}

/// `[prompt.username]`.
#[derive(Debug, Clone)]
pub struct UsernameSection {
    pub style_user: String,
    pub style_root: String,
    pub format: String,
    pub show_always: bool,
    pub disabled: bool,
}

impl Default for UsernameSection {
    fn default() -> (r: Self)
        ensures
            r.style_user@ == "bold yellow"@,
            r.style_root@ == "bold red"@,
            r.format@ == "[$user]($style) "@,
            !r.show_always,
            !r.disabled,
    {
        UsernameSection {
            style_user: owned("bold yellow"),
            style_root: owned("bold red"),
            format: owned("[$user]($style) "),
            show_always: false,
            disabled: false,
        }
    }
}

/// `[prompt.hostname]`.
#[derive(Debug, Clone)]
pub struct HostnameSection {
    pub ssh_only: bool,
    pub format: String,
    pub trim_at: String,
    pub disabled: bool,
}

impl Default for HostnameSection {
    fn default() -> (r: Self)
        ensures
            r.ssh_only,
            r.format@ == "on [$hostname]($style) "@,
            r.trim_at@ == "."@,
            !r.disabled,
    {
        HostnameSection {
            ssh_only: true,
            format: owned("on [$hostname]($style) "),
            trim_at: owned("."),
            disabled: false,
        }
    }
}

/// `[prompt]`: the overall format and every module's section.
#[derive(Debug, Clone)]
pub struct PromptConfig {
    pub format: String,
    pub character: CharacterSection,
    pub directory: DirectorySection,
    pub cmd_duration: CmdDurationSection,
    pub git_branch: GitBranchSection,
    pub git_status: GitStatusSection,
    pub username: UsernameSection,
    pub hostname: HostnameSection,
}

impl Default for PromptConfig {
    fn default() -> (r: Self)
        ensures
            r.format@ == "$directory$git_branch\n$character"@,
            r.character.success_symbol@ == "\x1b[1;32m\u{276f}\x1b[0m "@,
            r.character.error_symbol@ == "\x1b[1;31m\u{276f}\x1b[0m "@,
            r.directory.truncation_length == 3,
            r.cmd_duration.min_time == 2000,
            r.git_branch.truncation_length == usize::MAX,
            r.hostname.ssh_only,
    {
        PromptConfig {
            format: owned("$directory$git_branch\n$character"),
            character: CharacterSection::default(),
            directory: DirectorySection::default(),
            cmd_duration: CmdDurationSection::default(),
            git_branch: GitBranchSection::default(),
            git_status: GitStatusSection::default(),
            username: UsernameSection::default(),
            hostname: HostnameSection::default(),
        }
    }
}

} // verus!
