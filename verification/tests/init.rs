use awscredx::init::{
    bash_init_files, config_dir, config_file, data_dir, first_file_that_exists_index, init_line,
    outdated_script, raw_shell_script_template, replace_template_placeholders, run,
    shell_config_script, shell_init_script_path, shell_script, shell_script_content, InitType,
    Shell,
};
use awscredx::util::{home_based_path, join_path, path_to_absolute};

#[test]
fn shells_by_name() {
    assert_eq!(Shell::parse("fish"), Some(Shell::Fish));
    assert_eq!(Shell::parse("bash"), Some(Shell::Bash));
    assert_eq!(Shell::parse("zsh"), Some(Shell::Zsh));
    assert_eq!(Shell::parse("Zsh"), None);
    assert_eq!(Shell::parse(""), None);
    assert_eq!(Shell::from("fish"), Shell::Fish);
    assert_eq!(Shell::from("zsh").as_str(), "zsh");
    assert_eq!(Shell::Bash.as_str(), "bash");
}

#[test]
fn init_lines() {
    assert_eq!(init_line(&Shell::Fish), "awscredx init fish | source");
    assert_eq!(init_line(&Shell::Bash), "eval $(awscredx init bash)");
    assert_eq!(init_line(&Shell::Zsh), "eval $(awscredx init zsh)");
}

#[test]
fn paths_below_home() {
    assert_eq!(config_file("/home/u"), "/home/u/.config/awscredx/config.toml");
    assert_eq!(config_dir("/home/u"), "/home/u/.config/awscredx");
    assert_eq!(data_dir("/home/u"), "/home/u/.local/share/awscredx");
    assert_eq!(data_dir("/home/u/"), "/home/u/.local/share/awscredx");
    assert_eq!(data_dir(""), ".local/share/awscredx");
    assert_eq!(shell_config_script(&Shell::Fish, "/h"), "/h/.local/share/awscredx/script.fish");
    assert_eq!(shell_config_script(&Shell::Bash, "/h"), "/h/.local/share/awscredx/script.sh");
    assert_eq!(shell_config_script(&Shell::Zsh, "/h"), "/h/.local/share/awscredx/script.sh");
    assert_eq!(shell_script(&Shell::Fish), "script.fish");
}

#[test]
fn paths_agree_with_std() {
    for (base, more) in [("/a", "b"), ("/a/", "b"), ("", "b"), ("/a", "/b"), ("a", ""), ("/", "x/y")] {
        let expected = std::path::Path::new(base).join(more);
        assert_eq!(join_path(base, more), expected.to_str().unwrap());
    }
    for home in ["/home/u", "", "/", "/x/$HOME/~"] {
        let file = config_file(home);
        let parent = std::path::Path::new(&file).parent().unwrap().to_str().unwrap().to_owned();
        assert_eq!(config_dir(home), parent);
    }
}

#[test]
fn home_in_paths() {
    assert_eq!(path_to_absolute("~/.zshrc", "/home/u"), "/home/u/.zshrc");
    assert_eq!(path_to_absolute("$HOME/x/~", "/h"), "/h/x//h");
    assert_eq!(path_to_absolute("~", "$HOME"), "$HOME".replace("$HOME", "$HOME"));
    assert_eq!(path_to_absolute("~", "a$HOME"), "~".replace("~", "a$HOME").replace("$HOME", "a$HOME"));
    assert_eq!(home_based_path("/home/u/.bashrc", "/home/u"), "$HOME/.bashrc");
    assert_eq!(home_based_path("~/x", "/home/u"), "$HOME/x");
    assert_eq!(home_based_path("ab", ""), "ab".replace("", "$HOME").replace("~", "$HOME"));
    assert_eq!(home_based_path("aaa", "aa"), "$HOMEa");
}

#[test]
fn init_file_of_each_shell() {
    let none = [false, false, false, false];
    assert_eq!(shell_init_script_path(&Shell::Fish, "/h", &none), "/h/.config/fish/config.fish");
    assert_eq!(shell_init_script_path(&Shell::Zsh, "/h", &none), "/h/.zshrc");
    assert_eq!(shell_init_script_path(&Shell::Bash, "/h", &none), "/h/.bashrc");
    assert_eq!(
        shell_init_script_path(&Shell::Bash, "/h", &[false, true, false, true]),
        "/h/.bash_profile"
    );
    assert_eq!(
        shell_init_script_path(&Shell::Bash, "/h", &[false, false, false, true]),
        "/h/.profile"
    );
    assert_eq!(shell_init_script_path(&Shell::Zsh, "/h", &[true, true, true, true]), "/h/.zshrc");
    assert_eq!(
        bash_init_files("/h"),
        vec!["/h/.bashrc", "/h/.bash_profile", "/h/.bash_login", "/h/.profile"]
    );
    assert_eq!(first_file_that_exists_index(&[false, false, true, true]), Some(2));
    assert_eq!(first_file_that_exists_index(&[true]), Some(0));
    assert_eq!(first_file_that_exists_index(&[false, false]), None);
    assert_eq!(first_file_that_exists_index(&[]), None);
}

#[test]
fn templates() {
    assert_eq!(
        replace_template_placeholders("@bin@ @version@ @bin@@bin", "1.2.3"),
        "awscredx 1.2.3 awscredx@bin"
    );
    assert_eq!(raw_shell_script_template(&Shell::Fish, "f", "s"), "f");
    assert_eq!(raw_shell_script_template(&Shell::Zsh, "f", "s"), "s");
    assert_eq!(shell_script_content(&Shell::Fish, "fish @bin@", "sh @bin@", "1"), "fish awscredx");
    assert_eq!(shell_script_content(&Shell::Bash, "fish", "sh @version@", "0.9"), "sh 0.9");
}

#[test]
fn bootstrap_and_full_script() {
    assert_eq!(
        run("fish", InitType::Bootstrap, "/bin/x", "F", "S"),
        "source (\"/bin/x\" init --full fish | psub)"
    );
    assert_eq!(
        run("bash", InitType::Bootstrap, "/bin/x", "F", "S"),
        "source <(\"/bin/x\" init --full bash)"
    );
    assert_eq!(run("fish", InitType::Full, "/bin/x", "F @bin@", "S"), "F awscredx\n");
    assert_eq!(run("zsh", InitType::Full, "/bin/x", "F", "S @bin@ @version@"), "S awscredx @version@\n");
}

#[test]
fn scripts_of_an_earlier_version() {
    assert!(!outdated_script(false, false));
    assert!(outdated_script(true, false));
    assert!(outdated_script(false, true));
    assert!(outdated_script(true, true));
}
