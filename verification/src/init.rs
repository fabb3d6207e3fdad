//! What the shells need to use the program: where their scripts lie and
//! what an init script has to run.

use vstd::prelude::*;
use vstd::string::StringExecFns;
use crate::text::{chars_are, chars_of, lemma_replace_before, replace, replace_in};
use crate::util::{absolute, join_path, joined, path_to_absolute, HOME_VARIABLE, TILDE};

verus! {

/// The name under which the program is called.
pub const BINARY_NAME: &'static str = "awscredx";

/// Where the configuration lies.
pub const CONFIG_FILE_PATH: &'static str = "~/.config/awscredx/config.toml";

/// The directory in which the configuration lies.
pub const CONFIG_DIR_PATH: &'static str = "~/.config/awscredx";

/// The program's directory, below the home directory.
pub const DATA_DIR: &'static str = ".local/share/awscredx";

pub const FISH: &'static str = "fish";

pub const BASH: &'static str = "bash";

pub const ZSH: &'static str = "zsh";

pub const FISH_SCRIPT: &'static str = "script.fish";

pub const SH_SCRIPT: &'static str = "script.sh";

pub const FISH_INIT_FILE: &'static str = "~/.config/fish/config.fish";

pub const ZSH_INIT_FILE: &'static str = "~/.zshrc";

pub const BASHRC: &'static str = "~/.bashrc";

pub const BASH_PROFILE: &'static str = "~/.bash_profile";

pub const BASH_LOGIN: &'static str = "~/.bash_login";

pub const PROFILE: &'static str = "~/.profile";

/// What stands for the program's name in a script template.
pub const BIN_PLACEHOLDER: &'static str = "@bin@";

/// What stands for the program's version in a script template.
pub const VERSION_PLACEHOLDER: &'static str = "@version@";

/// The shells that the program serves.
#[derive(Clone, Copy, Debug, PartialEq, Eq, Structural)]
pub enum Shell {
    Fish,
    Bash,
    Zsh,
}

/// How much of its script a shell is given.
#[derive(Clone, Copy, Debug, PartialEq, Eq, Structural)]
pub enum InitType {
    /// A line that fetches the full script.
    Bootstrap,
    /// The full script.
    Full,
}

/// The shell of that name, if the program serves it.
pub open spec fn shell_named(name: Seq<char>) -> Option<Shell> {
    if name == FISH@ {
        Some(Shell::Fish)
    } else if name == BASH@ {
        Some(Shell::Bash)
    } else if name == ZSH@ {
        Some(Shell::Zsh)
    } else {
        None
    }
}

impl Shell {
    /// The name of the shell.
    pub open spec fn name(self) -> Seq<char> {
        match self {
            Shell::Fish => FISH@,
            Shell::Bash => BASH@,
            Shell::Zsh => ZSH@,
        }
    }

    /// The name of the script that the shell reads.
    pub open spec fn script(self) -> Seq<char> {
        match self {
            Shell::Fish => FISH_SCRIPT@,
            _ => SH_SCRIPT@,
        }
    }

    /// The file that the shell runs when it starts, where the home
    /// directory is `home`. For bash it is the file of `bash_file`.
    pub open spec fn init_file(self, home: Seq<char>, bash_file: int) -> Seq<char> {
        match self {
            Shell::Fish => absolute(FISH_INIT_FILE@, home),
            Shell::Zsh => absolute(ZSH_INIT_FILE@, home),
            Shell::Bash => absolute(bash_init_file(bash_file), home),
        }
    }

    /// The shell of that name, if the program serves it.
    pub fn parse(name: &str) -> (r: Option<Shell>)
        ensures
            r == shell_named(name@),
    {
        let chars = chars_of(name);
        if chars_are(chars.as_slice(), FISH) {
            Some(Shell::Fish)
        } else if chars_are(chars.as_slice(), BASH) {
            Some(Shell::Bash)
        } else if chars_are(chars.as_slice(), ZSH) {
            Some(Shell::Zsh)
        } else {
            None
        }
    }

    /// The shell of that name.
    pub fn from(name: &str) -> (r: Shell)
        requires
            shell_named(name@) is Some,
        ensures
            Some(r) == shell_named(name@),
    {
        match Shell::parse(name) {
            Some(shell) => shell,
            None => Shell::Bash,
        }
    }

    /// The name of the shell.
    pub fn as_str(&self) -> (r: &'static str)
        ensures
            r@ == self.name(),
    {
        match self {
            Shell::Bash => BASH,
            Shell::Fish => FISH,
            Shell::Zsh => ZSH,
        }
    }
}

/// The files that bash may run when it starts, in the order in which
/// they are looked for. Any other number stands for the first.
pub open spec fn bash_init_file(i: int) -> Seq<char> {
    if i == 1 {
        BASH_PROFILE@
    } else if i == 2 {
        BASH_LOGIN@
    } else if i == 3 {
        PROFILE@
    } else {
        BASHRC@
    }
}

/// How many files bash may run when it starts.
pub const BASH_INIT_FILES: usize = 4;

/// The index of the first `true`.
pub open spec fn first_true(flags: Seq<bool>) -> Option<int>
    decreases flags.len(),
{
    if flags.len() == 0 {
        None
    } else if flags[0] {
        Some(0)
    } else {
        match first_true(flags.drop_first()) {
            Some(i) => Some(i + 1),
            None => None,
        }
    }
}

/// The index of the first file that exists, `exists` saying of each file
/// whether it does.
pub fn first_file_that_exists_index(exists: &[bool]) -> (r: Option<usize>)
    ensures
        match r {
            Some(i) => first_true(exists@) == Some(i as int) && i < exists.len(),
            None => first_true(exists@) is None,
        },
{
    let mut i: usize = 0;
    assert(exists@.skip(0) == exists@);
    while i < exists.len()
        invariant
            i <= exists.len(),
            first_true(exists@) == match first_true(exists@.skip(i as int)) {
                Some(k) => Some(k + i),
                None => None,
            },
        decreases exists.len() - i,
    {
        if exists[i] {
            return Some(i);
        }
        assert(exists@.skip(i as int).drop_first() == exists@.skip(i + 1));
        i += 1;
    }
    None
}

/// The name of the script that `shell` reads.
pub fn shell_script(shell: &Shell) -> (r: &'static str)
    ensures
        r@ == shell.script(),
{
    match shell {
        Shell::Fish => FISH_SCRIPT,
        _ => SH_SCRIPT,
    }
}

/// The program's directory, where the home directory is `home`.
pub fn data_dir(home: &str) -> (r: String)
    ensures
        r@ == joined(home@, DATA_DIR@),
{
    join_path(home, DATA_DIR)
}

/// The script of `shell` in the program's directory.
pub fn shell_config_script(shell: &Shell, home: &str) -> (r: String)
    ensures
        r@ == joined(joined(home@, DATA_DIR@), shell.script()),
{
    let dir = data_dir(home);
    join_path(dir.as_str(), shell_script(shell))
}

/// The configuration file, where the home directory is `home`.
pub fn config_file(home: &str) -> (r: String)
    ensures
        r@ == absolute(CONFIG_FILE_PATH@, home@),
{
    path_to_absolute(CONFIG_FILE_PATH, home)
}

/// The directory of the configuration file, where the home directory is
/// `home`.
pub fn config_dir(home: &str) -> (r: String)
    ensures
        r@ == absolute(CONFIG_DIR_PATH@, home@),
{
    path_to_absolute(CONFIG_DIR_PATH, home)
}

/// The name of the configuration file in its directory, with the
/// separator before it.
pub const CONFIG_FILE_NAME: &'static str = "/config.toml";

/// The configuration file lies in the configuration directory, whatever
/// the home directory is.
pub proof fn lemma_config_file_in_config_dir(home: Seq<char>)
    ensures
        absolute(CONFIG_FILE_PATH@, home) == absolute(CONFIG_DIR_PATH@, home) + CONFIG_FILE_NAME@,
{
    reveal_strlit("~/.config/awscredx/config.toml");
    reveal_strlit("~/.config/awscredx");
    reveal_strlit("/config.toml");
    reveal_strlit("~");
    reveal_strlit("$HOME");
    let name = CONFIG_FILE_NAME@;
    assert(CONFIG_FILE_PATH@ == CONFIG_DIR_PATH@ + name);
    assert forall|i: int| 0 <= i < name.len() implies !TILDE@.contains(#[trigger] name[i]) by {
        if TILDE@.contains(name[i]) {
            let j = choose|j: int| 0 <= j < TILDE@.len() && TILDE@[j] == name[i];
        }
    }
    assert forall|i: int| 0 <= i < name.len() implies !HOME_VARIABLE@.contains(
        #[trigger] name[i],
    ) by {
        if HOME_VARIABLE@.contains(name[i]) {
            let j = choose|j: int| 0 <= j < HOME_VARIABLE@.len() && HOME_VARIABLE@[j] == name[i];
        }
    }
    lemma_replace_before(CONFIG_DIR_PATH@, name, TILDE@, home);
    lemma_replace_before(
        crate::text::replace(CONFIG_DIR_PATH@, TILDE@, home),
        name,
        HOME_VARIABLE@,
        home,
    );
}

/// `template` with the program's name and `version` in the places that
/// are kept for them.
pub fn replace_template_placeholders(template: &str, version: &str) -> (r: String)
    ensures
        r@ == replace(
            replace(template@, BIN_PLACEHOLDER@, BINARY_NAME@),
            VERSION_PLACEHOLDER@,
            version@,
        ),
{
    let first = replace_in(template, BIN_PLACEHOLDER, BINARY_NAME);
    replace_in(first.as_str(), VERSION_PLACEHOLDER, version)
}

/// The template of the script of `shell`: fish has one of its own, the
/// other shells share one.
pub fn raw_shell_script_template<'a>(shell: &Shell, fish: &'a str, sh: &'a str) -> (r: &'a str)
    ensures
        r@ == match shell {
            Shell::Fish => fish@,
            _ => sh@,
        },
{
    match shell {
        Shell::Fish => fish,
        _ => sh,
    }
}

/// The script of `shell`, made of its template.
pub fn shell_script_content(shell: &Shell, fish: &str, sh: &str, version: &str) -> (r: String)
    ensures
        r@ == replace(
            replace(
                match shell {
                    Shell::Fish => fish@,
                    _ => sh@,
                },
                BIN_PLACEHOLDER@,
                BINARY_NAME@,
            ),
            VERSION_PLACEHOLDER@,
            version@,
        ),
{
    replace_template_placeholders(raw_shell_script_template(shell, fish, sh), version)
}

/// The line that the init file of `shell` has to hold.
pub fn init_line(shell: &Shell) -> (r: String)
    ensures
        r@ == match shell {
            Shell::Fish => BINARY_NAME@ + " init "@ + shell.name() + " | source"@,
            _ => "eval $("@ + BINARY_NAME@ + " init "@ + shell.name() + ")"@,
        },
{
    let mut cmd = String::from_str(BINARY_NAME);
    cmd.append(" init ");
    cmd.append(shell.as_str());
    match shell {
        Shell::Fish => {
            cmd.append(" | source");
            cmd
        },
        _ => {
            let mut r = String::from_str("eval $(");
            r.append(cmd.as_str());
            r.append(")");
            assert(r@ == "eval $("@ + BINARY_NAME@ + " init "@ + shell.name() + ")"@);
            r
        },
    }
}

/// The init file of `shell`, where the home directory is `home`. For bash
/// it is the first of its files that exists, `bash_file_exists` saying of
/// each whether it does, and the first of them where none exists.
pub fn shell_init_script_path(shell: &Shell, home: &str, bash_file_exists: &[bool]) -> (r: String)
    ensures
        r@ == shell.init_file(
            home@,
            match first_true(bash_file_exists@) {
                Some(i) => i,
                None => 0,
            },
        ),
{
    let index = match first_file_that_exists_index(bash_file_exists) {
        Some(i) => i,
        None => 0,
    };
    match shell {
        Shell::Fish => path_to_absolute(FISH_INIT_FILE, home),
        Shell::Zsh => path_to_absolute(ZSH_INIT_FILE, home),
        Shell::Bash => {
            let file = if index == 1 {
                BASH_PROFILE
            } else if index == 2 {
                BASH_LOGIN
            } else if index == 3 {
                PROFILE
            } else {
                BASHRC
            };
            path_to_absolute(file, home)
        },
    }
}

/// The files that bash may run when it starts, where the home directory
/// is `home`, in the order in which they are looked for.
pub fn bash_init_files(home: &str) -> (r: Vec<String>)
    ensures
        r.len() == BASH_INIT_FILES,
        forall|i: int| 0 <= i < r.len() ==> (#[trigger] r[i])@ == absolute(bash_init_file(i), home@),
{
    let mut r: Vec<String> = Vec::new();
    r.push(path_to_absolute(BASHRC, home));
    r.push(path_to_absolute(BASH_PROFILE, home));
    r.push(path_to_absolute(BASH_LOGIN, home));
    r.push(path_to_absolute(PROFILE, home));
    r
}

/// Whether a script of an earlier version is still there: the one of
/// fish, or the one of the other shells.
pub fn outdated_script(sh_script_exists: bool, fish_script_exists: bool) -> (r: bool)
    ensures
        r == (sh_script_exists || fish_script_exists),
{
    sh_script_exists || fish_script_exists
}

/// What a shell has to run to set itself up. `shell` is the shell's
/// name, `bin` the path of the program, and `fish` and `sh` are the
/// templates of the full scripts.
///
/// The bootstrap is one line that reads the full script from the program;
/// the full script is the template of the shell with the program's name
/// in it, and a line feed.
pub fn run(shell: &str, init_type: InitType, bin: &str, fish: &str, sh: &str) -> (r: String)
    ensures
        r@ == match init_type {
            InitType::Bootstrap => if shell@ == FISH@ {
                "source (\""@ + bin@ + "\" init --full "@ + shell@ + " | psub)"@
            } else {
                "source <(\""@ + bin@ + "\" init --full "@ + shell@ + ")"@
            },
            InitType::Full => replace(
                if shell@ == FISH@ {
                    fish@
                } else {
                    sh@
                },
                BIN_PLACEHOLDER@,
                BINARY_NAME@,
            ).push('\n'),
        },
{
    let name = chars_of(shell);
    let is_fish = chars_are(name.as_slice(), FISH);
    match init_type {
        InitType::Bootstrap => {
            let mut r = if is_fish {
                String::from_str("source (\"")
            } else {
                String::from_str("source <(\"")
            };
            r.append(bin);
            r.append("\" init --full ");
            r.append(shell);
            if is_fish {
                r.append(" | psub)");
            } else {
                r.append(")");
            }
            r
        },
        InitType::Full => {
            let template = if is_fish {
                fish
            } else {
                sh
            };
            let mut r = replace_in(template, BIN_PLACEHOLDER, BINARY_NAME);
            r.push('\n');
            r
        },
    }
}

/// The line that makes `profile_name` the current profile of fish.
pub open spec fn fish_export(profile_name: Seq<char>) -> Seq<char> {
    "set -xg AWS_PROFILE "@ + profile_name + "; \n"@
}

/// The line that makes `profile_name` the current profile of the other
/// shells.
pub open spec fn sh_export(profile_name: Seq<char>) -> Seq<char> {
    "export AWS_PROFILE="@ + profile_name + "; \n"@
}

/// What puts the expiration of the credentials into the prompt of fish.
pub const FISH_PROMPT: &'static str =
    "function fish_prompt\n  set -l old_status $status\n\n  __awscredx_prompt\n\n  echo -n \"exit $old_status\" | .\n  _original_fish_prompt\nend\n\n";

/// What puts the expiration of the credentials into the prompt of the
/// other shells.
pub const SH_PROMPT: &'static str = "PS1='$(__awscredx_prompt) '${_ORIGINAL_PS1:-}\n";

/// What zsh needs before its prompt can be set so.
pub const ZSH_PROMPT_OPTION: &'static str = "setopt PROMPT_SUBST\n";

/// What a shell has to run to make `profile_name` its current profile.
/// `shell` is the name of the shell's program, where it is known; fish and
/// zsh are served in their own way, any other shell as bash is. The prompt
/// is set where `modify_shell_prompt` asks for it.
pub fn print_profile(shell: Option<&str>, profile_name: &str, modify_shell_prompt: bool) -> (r:
    String)
    ensures
        r@ == match shell {
            Some(name) if name@ == FISH@ => fish_export(profile_name@) + if modify_shell_prompt {
                FISH_PROMPT@
            } else {
                Seq::empty()
            },
            Some(name) if name@ == ZSH@ => sh_export(profile_name@) + if modify_shell_prompt {
                ZSH_PROMPT_OPTION@ + SH_PROMPT@
            } else {
                Seq::empty()
            },
            _ => sh_export(profile_name@) + if modify_shell_prompt {
                SH_PROMPT@
            } else {
                Seq::empty()
            },
        },
{
    let (fish, zsh) = match shell {
        Some(name) => {
            let chars = chars_of(name);
            (chars_are(chars.as_slice(), FISH), chars_are(chars.as_slice(), ZSH))
        },
        None => (false, false),
    };
    if fish {
        let mut r = String::from_str("set -xg AWS_PROFILE ");
        r.append(profile_name);
        r.append("; \n");
        if modify_shell_prompt {
            r.append(FISH_PROMPT);
        } else {
            assert(r@ + Seq::<char>::empty() == r@);
        }
        r
    } else {
        let mut r = String::from_str("export AWS_PROFILE=");
        r.append(profile_name);
        r.append("; \n");
        let ghost head = r@;
        if modify_shell_prompt {
            if zsh {
                r.append(ZSH_PROMPT_OPTION);
            }
            r.append(SH_PROMPT);
            assert(zsh ==> r@ == head + (ZSH_PROMPT_OPTION@ + SH_PROMPT@));
        } else {
            assert(r@ + Seq::<char>::empty() == r@);
        }
        r
    }
}

} // verus!
