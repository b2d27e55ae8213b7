use backupd::errors::BackupError;
use backupd::shellconf::{contains_sub, ShellConfiguration, ZshProgram};

fn get_shell_configuration() -> ShellConfiguration {
    let content = "
# If you come from bash you might have to change your $PATH.
# export PATH=$HOME/bin:/usr/local/bin:$PATH

# Path to your oh-my-zsh installation.
export ZSH=\"/home/navyd/.oh-my-zsh\"

fpath+=~/.zfunc

# Set name of the theme to load --- if set to \"random\", it will
# load a random theme each time oh-my-zsh is loaded, in which case,
# to know which specific one was loaded, run: echo $RANDOM_THEME
# See https://github.com/ohmyzsh/ohmyzsh/wiki/Themes
ZSH_THEME=\"ys\"

#ZSH_THEME=\"agnoster\"

# Set list of themes to pick from when loading at random
# Setting this variable when ZSH_THEME=random will cause zsh to load
# a theme from this variable instead of looking in ~/.oh-my-zsh/themes/
# If set to an empty array, this variable will have no effect.
# ZSH_THEME_RANDOM_CANDIDATES=( \"robbyrussell\" \"agnoster\" )

# Uncomment the following line to use case-sensitive completion.
# CASE_SENSITIVE=\"true\"

# Uncomment the following line to use hyphen-insensitive completion.
# Case-sensitive completion must be off. _ and - will be interchangeable.
# HYPHEN_INSENSITIVE=\"true\"

# HIST_STAMPS=\"mm/dd/yyyy\"

# Would you like to use another custom folder than $ZSH/custom?
# ZSH_CUSTOM=/path/to/new-custom-folder

# Which plugins would you like to load?
# Standard plugins can be found in ~/.oh-my-zsh/plugins/*
# Custom plugins may be added to ~/.oh-my-zsh/custom/plugins/
# Example format: plugins=(rails git textmate ruby lighthouse)
# Add wisely, as too many plugins slow down shell startup.
plugins=(git z extract zsh-autosuggestions zsh-syntax-highlighting docker docker-compose mvn)

source $ZSH/oh-my-zsh.sh
";
    ShellConfiguration::new(content)
}

#[test]
fn reg_test() {
    // the variable grammar matches somewhere in the fixture
    let shell = get_shell_configuration();
    assert!(shell.get_var("ZSH").is_some());
}

#[test]
fn get_with_prefix_export_or_others() {
    let shell = get_shell_configuration();
    // export ZSH="/home/navyd/.oh-my-zsh"
    assert_eq!(shell.get_var("ZSH"), Some("\"/home/navyd/.oh-my-zsh\"".to_string()));
}

#[test]
fn get_none_with_hash() {
    // commented-out assignments never match
    let shell = get_shell_configuration();
    assert_eq!(shell.get_var("ZSH_THEME_RANDOM_CANDIDATES"), None);
    assert_eq!(shell.get_var("HYPHEN_INSENSITIVE"), None);
}

#[test]
fn basic_get() {
    let shell = get_shell_configuration();
    assert_eq!(
        shell.get_var("plugins"),
        Some(
            "(git z extract zsh-autosuggestions zsh-syntax-highlighting docker docker-compose mvn)"
                .to_string()
        )
    )
}

#[test]
fn put_new() {
    let mut shell = get_shell_configuration();
    let old_len = shell.content().len();
    let (name, val) = ("test_name", "test_val");
    assert_eq!(shell.get_var(name), None);
    assert!(shell.put_var(name, val).is_none());
    assert_eq!(shell.get_var(name), Some(val.to_string()));
    // two more characters: the newline and the equals sign
    assert_eq!(shell.content().len(), old_len + (name.len() + 2 + val.len()));
}

#[test]
fn put_old_with_quote() {
    let mut shell = get_shell_configuration();
    let old_len = shell.content().len();
    let (name, new_val) = ("ZSH", "\"/home/navyd/.oh-my-zsh/test\"");
    let old_val = "\"/home/navyd/.oh-my-zsh\"";
    assert_eq!(shell.get_var(name), Some(old_val.to_string()));
    assert_eq!(shell.put_var(name, new_val), Some(old_val.to_string()));
    assert_eq!(shell.get_var(name), Some(new_val.to_string()));
    // only the value is replaced
    assert_eq!(shell.content().len(), old_len + (new_val.len() - old_val.len()));
}

#[test]
fn remove_var_none() {
    let mut shell = get_shell_configuration();
    let none_name = "_none_name_test";
    assert!(shell.get_var(none_name).is_none());
    assert_eq!(shell.remove_var(none_name), None);
    assert_eq!(shell.get_var(none_name), None);
}

#[test]
fn remove_old_var() {
    let mut shell = get_shell_configuration();
    let old_len = shell.content().len();
    let name = "ZSH";
    let old_val = shell.get_var(name);
    assert!(old_val.is_some());
    assert_eq!(shell.remove_var(name), old_val);
    assert_eq!(shell.get_var(name), None);
    // exactly the line's text is removed
    assert_eq!(
        shell.content().len(),
        old_len - "export ZSH=\"/home/navyd/.oh-my-zsh\"".len()
    );
}

#[test]
fn not_exported_var_in_none_name_and_local_name() {
    let shell = get_shell_configuration();
    let none_name = "_none_name_test";
    let local_name = "ZSH_THEME";
    assert!(!shell.is_exported_var(none_name));
    assert!(!shell.is_exported_var(local_name));
}

#[test]
fn exported_var() {
    let shell = get_shell_configuration();
    let exported_name = "ZSH";
    assert!(shell.is_exported_var(exported_name));
}

#[test]
fn export_var_failed_in_none_name() {
    let mut shell = get_shell_configuration();
    let none_name = "_none_name_test";
    assert!(shell.get_var(none_name).is_none());
    assert_eq!(shell.export_var(none_name), None);
}

#[test]
fn export_var_with_local_var() {
    let mut shell = get_shell_configuration();
    let old_len = shell.content().len();
    let name = "ZSH_THEME";
    assert!(!shell.is_exported_var(name));
    assert_eq!(shell.export_var(name), Some("\"ys\"".to_string()));
    assert!(shell.get_var(name).is_some());
    assert!(shell.is_exported_var(name));
    assert!(old_len == (shell.content().len() - "export ".len()));
}

#[test]
fn plugin_path_and_clone_command() {
    let shell = get_shell_configuration();
    let zsh = ZshProgram::new(&shell, "/home/navyd/.oh-my-zsh/");
    let path = zsh.plugin_path("zsh-autosuggestions");
    assert_eq!(path, "/home/navyd/.oh-my-zsh/custom/plugins/zsh-autosuggestions");
    let cmd = zsh.clone_command("https://github.com/zsh-users/zsh-autosuggestions", &path);
    assert_eq!(
        cmd,
        "git clone https://github.com/zsh-users/zsh-autosuggestions /home/navyd/.oh-my-zsh/custom/plugins/zsh-autosuggestions"
    );
}

#[test]
fn plugin_fetch_verdicts() {
    let shell = get_shell_configuration();
    let zsh = ZshProgram::new(&shell, "/home/x/");
    // the plugin directory already exists
    let r = zsh.get_plugin_with_git_clone("p", true, &None);
    assert_eq!(r, Err(BackupError::AlreadyExists));
    // the download failed
    let r = zsh.get_plugin_with_git_clone("p", false, &Some(Err("boom".to_string())));
    assert_eq!(r, Err(BackupError::Io));
    // fetched
    let r = zsh.get_plugin_with_git_clone("p", false, &Some(Ok(String::new())));
    assert_eq!(r, Ok("p".to_string()));
}

#[test]
fn plugin_list_updates_per_verdict() {
    let shell = get_shell_configuration();
    let zsh = ZshProgram::new(&shell, "/home/x/");
    // a fresh fetch appends
    let mut plugins = "(git ".to_string();
    zsh.config_plugin_with_git(&mut plugins, "zsh-autosuggestions", &Ok("x".to_string()));
    assert_eq!(plugins, "(git zsh-autosuggestions");
    // already on disk and already listed: unchanged
    let before = plugins.clone();
    zsh.config_plugin_with_git(
        &mut plugins,
        "zsh-autosuggestions",
        &Err(BackupError::AlreadyExists),
    );
    assert_eq!(plugins, before);
    // already on disk but not listed yet: appended
    zsh.config_plugin_with_git(
        &mut plugins,
        "zsh-syntax-highlighting",
        &Err(BackupError::AlreadyExists),
    );
    assert_eq!(plugins, "(git zsh-autosuggestionszsh-syntax-highlighting");
    // any other failure leaves the list alone
    let before = plugins.clone();
    zsh.config_plugin_with_git(&mut plugins, "other", &Err(BackupError::Io));
    assert_eq!(plugins, before);
}

#[test]
fn plugins_var_reads_the_list() {
    let shell = get_shell_configuration();
    let zsh = ZshProgram::new(&shell, "/home/x/");
    let v = zsh.plugins_var().expect("plugins variable");
    assert!(v.starts_with("(git"));
    assert!(v.ends_with(")"));
}

#[test]
fn substring_search() {
    assert!(contains_sub("hello world", "lo wo"));
    assert!(contains_sub("hello", "hello"));
    assert!(contains_sub("hello", ""));
    assert!(!contains_sub("hello", "world"));
    assert!(!contains_sub("he", "hello"));
}

#[test]
fn content_reproduces_the_input_text() {
    let text = "export ZSH=\"/x\"\n\n# note\nplugins=(git)\n";
    let shell = ShellConfiguration::new(text);
    assert_eq!(shell.content(), text);
    let empty = ShellConfiguration::new("");
    assert_eq!(empty.content(), "");
}
