#![allow(dead_code, unused_imports, unused_variables, unused_mut, non_camel_case_types, unused_must_use)]

use std::collections::{BTreeMap, BTreeSet};
use std::sync::Mutex;

use dotr::cli::{
    validate_profile_exists, Cli, Command, DeployUpdateArgs, ImportArgs, InitArgs, PrintVarsArgs,
};
use dotr::codec::write_table;
use dotr::config::Config;
use dotr::context::Context;
use dotr::engine::{child_path, trim_slashes, Comparison, DestProbe, SourceFile, Step};
use dotr::error::DotrError;
use dotr::package::{create_backup_path, Package, Phase};
use dotr::profile::Profile;
use dotr::utils;
use dotr::value::{StrMap, Table, TomlValue};

// ---------------------------------------------------------------------
// A disk held in memory, and the commands of the tool run against it.
// ---------------------------------------------------------------------

const HOME_DIR: &str = "/home/tester";
const WORK_DIR: &str = "/work";

struct Disk {
    files: BTreeMap<String, String>,
    dirs: BTreeSet<String>,
}

static DISK: Mutex<Disk> = Mutex::new(Disk {
    files: BTreeMap::new(),
    dirs: BTreeSet::new(),
});

static NEXT_ID: Mutex<usize> = Mutex::new(0);

fn next_id() -> usize {
    let mut id = NEXT_ID.lock().unwrap();
    *id += 1;
    *id
}

/// The absolute form of a path: below the work directory where it is
/// relative, without `.` segments and trailing separators.
fn absolute(path: &str) -> String {
    let full = if path.starts_with('/') {
        path.to_string()
    } else {
        format!("{}/{}", WORK_DIR, path)
    };
    let mut parts: Vec<&str> = Vec::new();
    for part in full.split('/') {
        if part.is_empty() || part == "." {
            continue;
        }
        parts.push(part);
    }
    format!("/{}", parts.join("/"))
}

fn disk_below(disk: &Disk, root: &str) -> Vec<String> {
    let prefix = format!("{}/", root);
    disk.files
        .keys()
        .filter(|k| k.starts_with(prefix.as_str()))
        .cloned()
        .collect()
}

fn disk_is_dir(path: &str) -> bool {
    let disk = DISK.lock().unwrap();
    let prefix = format!("{}/", path);
    disk.dirs.contains(path)
        || disk.dirs.iter().any(|d| d.starts_with(prefix.as_str()))
        || !disk_below(&disk, path).is_empty()
}

fn disk_is_file(path: &str) -> bool {
    DISK.lock().unwrap().files.contains_key(path)
}

fn disk_has(path: &str) -> bool {
    disk_is_file(path) || disk_is_dir(path)
}

fn disk_read(path: &str) -> Result<String, String> {
    DISK.lock()
        .unwrap()
        .files
        .get(path)
        .cloned()
        .ok_or_else(|| format!("No such file: {}", path))
}

fn disk_write(path: &str, content: &str) -> Result<(), String> {
    if disk_is_dir(path) {
        return Err(format!("Is a directory: {}", path));
    }
    match path.rfind('/') {
        Some(i) if i > 0 && !disk_is_dir(&path[..i]) => {
            return Err(format!("No such directory: {}", &path[..i]));
        }
        _ => {}
    }
    DISK.lock()
        .unwrap()
        .files
        .insert(path.to_string(), content.to_string());
    Ok(())
}

fn disk_mkdir(path: &str) -> Result<(), String> {
    if disk_is_file(path) {
        return Err(format!("File exists: {}", path));
    }
    DISK.lock().unwrap().dirs.insert(path.to_string());
    Ok(())
}

fn disk_remove_all(path: &str) {
    let mut disk = DISK.lock().unwrap();
    let prefix = format!("{}/", path);
    disk.files
        .retain(|k, _| k != path && !k.starts_with(prefix.as_str()));
    disk.dirs
        .retain(|k| k != path && !k.starts_with(prefix.as_str()));
}

fn disk_rename(from: &str, to: &str) -> Result<(), String> {
    if !disk_has(from) {
        return Err(format!("No such file or directory: {}", from));
    }
    disk_remove_all(to);
    let mut disk = DISK.lock().unwrap();
    let prefix = format!("{}/", from);
    let moved: Vec<String> = disk
        .files
        .keys()
        .filter(|k| k.as_str() == from || k.starts_with(prefix.as_str()))
        .cloned()
        .collect();
    for k in moved {
        let content = disk.files.remove(&k).unwrap();
        disk.files.insert(format!("{}{}", to, &k[from.len()..]), content);
    }
    let moved: Vec<String> = disk
        .dirs
        .iter()
        .filter(|k| k.as_str() == from || k.starts_with(prefix.as_str()))
        .cloned()
        .collect();
    for k in moved {
        disk.dirs.remove(&k);
        disk.dirs.insert(format!("{}{}", to, &k[from.len()..]));
    }
    Ok(())
}

/// The relative paths of the files at or below `root`, in walk order.
fn disk_walk(root: &str) -> Vec<String> {
    if disk_is_file(root) {
        return vec![String::new()];
    }
    let disk = DISK.lock().unwrap();
    disk_below(&disk, root)
        .into_iter()
        .map(|k| k[root.len() + 1..].to_string())
        .collect()
}

fn source_files(root: &str) -> Vec<SourceFile> {
    disk_walk(root)
        .into_iter()
        .map(|rel| SourceFile {
            content: disk_read(&child_path(root, &rel)).ok(),
            relative_path: rel,
        })
        .collect()
}

fn carry_out(steps: Vec<Step>) -> Result<(), DotrError> {
    for step in steps {
        let done = match &step {
            Step::RemoveDirAll { path } => {
                disk_remove_all(path);
                Ok(())
            }
            Step::Rename { from, to } => disk_rename(from, to),
            Step::CreateDirAll { path } => disk_mkdir(path),
            Step::WriteFile { path, content } => disk_write(path, content),
            Step::CopyFile { from, to } => disk_read(from).and_then(|c| disk_write(to, &c)),
        };
        if let Err(reason) = done {
            return Err(step.failure(&reason));
        }
    }
    Ok(())
}

fn fail(e: DotrError) -> String {
    e.message()
}

fn load_config(cwd: &str) -> Result<Config, String> {
    let content = disk_read(&child_path(cwd, "config.toml")).ok();
    Config::load(content.as_deref()).map_err(fail)
}

fn save_config(config: &Config, cwd: &str) -> Result<(), String> {
    let text = config.to_toml().map_err(fail)?;
    disk_write(&child_path(cwd, "config.toml"), &text)
}

fn environment() -> Vec<(String, String)> {
    vec![
        ("HOME".to_string(), HOME_DIR.to_string()),
        ("USER".to_string(), "tester".to_string()),
        ("SHELL".to_string(), "/bin/sh".to_string()),
    ]
}

fn env_var(name: &str) -> Result<String, String> {
    environment()
        .into_iter()
        .find(|(k, _)| k == name)
        .map(|(_, v)| v)
        .ok_or_else(|| format!("{} is not set", name))
}

fn context_at(cwd: &str) -> Result<Context, String> {
    let content = disk_read(&child_path(cwd, ".uservariables.toml")).ok();
    let user = Context::parse_uservariables(content.as_deref()).map_err(|e| {
        format!(
            "Failed to parse .uservariables.toml at '{}': {}",
            cwd,
            e.message()
        )
    })?;
    Ok(Context::new(cwd, environment(), user))
}

/// The words of a command: split at blanks, with what stands in single or
/// double quotes taken as it is.
fn shell_words(command: &str) -> Vec<String> {
    let mut words = Vec::new();
    let mut word = String::new();
    let mut quote: Option<char> = None;
    let mut started = false;
    for c in command.chars() {
        match quote {
            Some(q) if c == q => quote = None,
            Some(_) => word.push(c),
            None if c == '\'' || c == '"' => {
                quote = Some(c);
                started = true;
            }
            None if c.is_whitespace() => {
                if started || !word.is_empty() {
                    words.push(word.clone());
                    word.clear();
                    started = false;
                }
            }
            None => word.push(c),
        }
    }
    if started || !word.is_empty() {
        words.push(word);
    }
    words
}

/// Runs one simple command on the disk in memory and returns its exit code.
/// It knows `touch`, `mkdir -p`, `echo` with `>` and `>>`, `test` with `-f`,
/// `-d` and `-e`, `true`, `false` and `exit`; any other command is not
/// found.
fn run_simple(command: &str, cwd: &str) -> i32 {
    let words = shell_words(command);
    let at = |path: &str| absolute(&utils::resolve_path(path, cwd, HOME_DIR));
    match words.first().map(|w| w.as_str()) {
        None | Some("true") => 0,
        Some("false") => 1,
        Some("test") => match (words.get(1).map(|w| w.as_str()), words.get(2)) {
            (Some("-f"), Some(path)) if disk_is_file(&at(path)) => 0,
            (Some("-d"), Some(path)) if disk_is_dir(&at(path)) => 0,
            (Some("-e"), Some(path)) if disk_has(&at(path)) => 0,
            _ => 1,
        },
        Some("exit") => words.get(1).and_then(|c| c.parse().ok()).unwrap_or(0),
        Some("touch") => {
            for path in &words[1..] {
                if !disk_is_file(&at(path)) && disk_write(&at(path), "").is_err() {
                    return 1;
                }
            }
            0
        }
        Some("mkdir") => {
            for path in words[1..].iter().filter(|w| !w.starts_with('-')) {
                if disk_mkdir(&at(path)).is_err() {
                    return 1;
                }
            }
            0
        }
        Some("echo") => {
            let split = words.iter().position(|w| w == ">" || w == ">>");
            let text = format!("{}\n", words[1..split.unwrap_or(words.len())].join(" "));
            match split {
                None => 0,
                Some(i) => {
                    let path = match words.get(i + 1) {
                        Some(path) => at(path),
                        None => return 2,
                    };
                    let before = if words[i] == ">>" {
                        disk_read(&path).unwrap_or_default()
                    } else {
                        String::new()
                    };
                    match disk_write(&path, &format!("{}{}", before, text)) {
                        Ok(()) => 0,
                        Err(_) => 1,
                    }
                }
            }
        }
        Some(_) => 127,
    }
}

/// Runs a command line: simple commands joined by `&&`.
fn run_shell(command: &str, cwd: &str) -> Option<i32> {
    for part in command.split("&&") {
        let code = run_simple(part, cwd);
        if code != 0 {
            return Some(code);
        }
    }
    Some(0)
}

fn place_files(package: &Package, ctx: &Context) -> Result<(), String> {
    let src_root = trim_slashes(&absolute(&package.resolve_src(ctx, HOME_DIR)));
    if !disk_has(&src_root) {
        return Err(format!(
            "Source '{}' of package '{}' does not exist",
            src_root, package.name
        ));
    }
    let dest = trim_slashes(&absolute(&package.resolve_dest(ctx, HOME_DIR)));
    let probe = DestProbe {
        dest_exists: disk_has(&dest),
        stale_backup_dir: disk_is_dir(&create_backup_path(&dest)),
    };
    let steps = package
        .deploy(ctx, HOME_DIR, probe, &source_files(&src_root))
        .map_err(fail)?;
    carry_out(steps).map_err(fail)
}

fn deploy_package(package: &Package, ctx: &Context) -> Result<(), String> {
    let mut phase = package.first_phase();
    loop {
        let exit_code = match phase {
            Phase::Done => return Ok(()),
            Phase::Copy => {
                place_files(package, ctx)?;
                None
            }
            Phase::Pre(_) | Phase::Post(_) => {
                match package.phase_command(ctx, phase).map_err(fail)? {
                    Some(command) => run_shell(&command, &ctx.working_dir),
                    None => None,
                }
            }
        };
        phase = package.after_phase(phase, exit_code).map_err(fail)?;
    }
}

fn update_package(package: &Package, ctx: &Context) -> Result<(), String> {
    let store = trim_slashes(&absolute(&package.resolve_src(ctx, HOME_DIR)));
    let dest = trim_slashes(&absolute(&package.resolve_dest(ctx, HOME_DIR)));
    let steps = package.backup(ctx, HOME_DIR, &source_files(&store), &disk_walk(&dest));
    carry_out(steps).map_err(fail)
}

fn diff_package(package: &Package, ctx: &Context) -> Result<(), String> {
    let store = trim_slashes(&absolute(&package.resolve_src(ctx, HOME_DIR)));
    let dest = trim_slashes(&absolute(&package.resolve_dest(ctx, HOME_DIR)));
    let found: Vec<Comparison> = disk_walk(&store)
        .into_iter()
        .map(|rel| {
            let stored = disk_read(&child_path(&store, &rel)).ok();
            let live = disk_read(&child_path(&dest, &rel)).ok();
            Comparison {
                live_exists: live.is_some(),
                identical: live == stored,
                relative_path: rel,
            }
        })
        .collect();
    let report = package.diff(&found);
    for path in &report.changed {
        println!("[INFO] Package '{}': '{}' differs", package.name, path);
    }
    Ok(())
}

fn import_path(
    config: &mut Config,
    path: &str,
    ctx: &Context,
    profile: &Option<String>,
) -> Result<(), String> {
    let resolved = absolute(&utils::resolve_path(path, &ctx.working_dir, HOME_DIR));
    let package = Package::from_path(
        path,
        &ctx.working_dir,
        HOME_DIR,
        disk_has(&resolved),
        disk_is_dir(&resolved),
    )
    .map_err(fail)?;
    update_package(&package, ctx)?;
    config.import_package(package, profile);
    save_config(config, &ctx.working_dir)
}

/// Runs a command of the tool against the disk in memory.
fn run_cli(args: Cli) -> Result<(), String> {
    let cwd = match &args.working_dir {
        Some(wd) => absolute(wd),
        None => WORK_DIR.to_string(),
    };
    if !disk_has(&cwd) {
        if !args.creates_repository() {
            return Err("The specified working directory does not exist".to_string());
        }
        disk_mkdir(&cwd)?;
    }
    if args.creates_repository() {
        if disk_has(&child_path(&cwd, "config.toml")) {
            load_config(&cwd)?;
            return Ok(());
        }
        save_config(&Config::new(), &cwd)?;
        disk_mkdir(&child_path(&cwd, dotr::config::STORE_DIR))?;
        disk_write(&child_path(&cwd, ".gitignore"), dotr::config::GITIGNORE_CONTENT)?;
        return Ok(());
    }
    if !args.needs_config() {
        println!("No command provided. Use --help for more information.");
        return Ok(());
    }
    let command = match args.command {
        Some(command) => command,
        None => return Ok(()),
    };
    let mut conf = load_config(&cwd)?;
    let mut ctx = context_at(&cwd)?;
    ctx.extend_variables(conf.variables.clone());
    let context_vars = ctx.get_context_variables();
    let (profile_name, profile) = conf.get_profile_details(command.profile(), &context_vars);
    if command.requires_known_profile() {
        validate_profile_exists(&profile_name, &profile).map_err(fail)?;
    }
    ctx.set_profile(profile);
    match command {
        Command::Init(_) => {}
        Command::Import(args) => import_path(&mut conf, &args.path, &ctx, &profile_name)?,
        Command::Deploy(args) => {
            let selected = conf.filter_packages(&ctx, &args.packages).map_err(fail)?;
            for i in 0..selected.len() {
                deploy_package(selected.value_at(i), &ctx)?;
            }
        }
        Command::Update(args) => {
            let selected = conf.filter_packages(&ctx, &args.packages).map_err(fail)?;
            for i in 0..selected.len() {
                update_package(selected.value_at(i), &ctx)?;
            }
        }
        Command::Diff(args) => {
            let selected = conf.filter_packages(&ctx, &args.packages).map_err(fail)?;
            for i in 0..selected.len() {
                diff_package(selected.value_at(i), &ctx)?;
            }
        }
        Command::PrintVars(_) => {
            for line in ctx.print_variables() {
                println!("{}", line);
            }
        }
    }
    Ok(())
}

// ---------------------------------------------------------------------
// Paths and files as the tests write them, on the disk in memory.
// ---------------------------------------------------------------------

#[derive(Clone, Debug, PartialEq)]
struct PathBuf {
    text: String,
}

impl PathBuf {
    fn from(text: &str) -> Self {
        PathBuf {
            text: absolute(text),
        }
    }

    fn raw(text: &str) -> Self {
        PathBuf {
            text: text.to_string(),
        }
    }

    fn is_absolute(&self) -> bool {
        self.text.starts_with('/')
    }

    fn join(&self, rel: impl AsRef<str>) -> PathBuf {
        let rel = rel.as_ref();
        if rel.starts_with('/') {
            PathBuf::from(rel)
        } else {
            PathBuf::from(&format!("{}/{}", self.text, rel))
        }
    }

    fn is_present(&self) -> bool {
        disk_has(&self.text)
    }

    fn is_dir(&self) -> bool {
        disk_is_dir(&self.text)
    }

    fn is_file(&self) -> bool {
        disk_is_file(&self.text)
    }

    fn to_str(&self) -> Option<&str> {
        Some(self.text.as_str())
    }

    fn display(&self) -> String {
        self.text.clone()
    }

    fn to_string_lossy(&self) -> String {
        self.text.clone()
    }

    fn parent(&self) -> Option<PathBuf> {
        self.text.rfind('/').map(|i| PathBuf {
            text: if i == 0 {
                "/".to_string()
            } else {
                self.text[..i].to_string()
            },
        })
    }
}

trait PathLike {
    fn path_text(&self) -> String;
}

impl PathLike for PathBuf {
    fn path_text(&self) -> String {
        self.text.clone()
    }
}

impl PathLike for &PathBuf {
    fn path_text(&self) -> String {
        self.text.clone()
    }
}

impl PathLike for &str {
    fn path_text(&self) -> String {
        absolute(self)
    }
}

impl PathLike for String {
    fn path_text(&self) -> String {
        absolute(self)
    }
}

struct fs;

impl fs {
    fn write(path: impl PathLike, content: impl AsRef<str>) -> Result<(), String> {
        disk_write(&path.path_text(), content.as_ref())
    }

    fn read_to_string(path: impl PathLike) -> Result<String, String> {
        disk_read(&path.path_text())
    }

    fn create_dir_all(path: impl PathLike) -> Result<(), String> {
        disk_mkdir(&path.path_text())
    }

    fn remove_file(path: impl PathLike) -> Result<(), String> {
        let path = path.path_text();
        match DISK.lock().unwrap().files.remove(&path) {
            Some(_) => Ok(()),
            None => Err(format!("No such file: {}", path)),
        }
    }

    fn remove_dir_all(path: impl PathLike) -> Result<(), String> {
        disk_remove_all(&path.path_text());
        Ok(())
    }
}

trait MapItems<V> {
    fn keys(&self) -> std::vec::IntoIter<&String>;
    fn values(&self) -> std::vec::IntoIter<&V>;
    fn iter(&self) -> std::vec::IntoIter<(&String, &V)>;
}

impl<V> MapItems<V> for StrMap<V> {
    fn keys(&self) -> std::vec::IntoIter<&String> {
        (0..self.len()).map(|i| self.key_at(i)).collect::<Vec<_>>().into_iter()
    }

    fn values(&self) -> std::vec::IntoIter<&V> {
        (0..self.len()).map(|i| self.value_at(i)).collect::<Vec<_>>().into_iter()
    }

    fn iter(&self) -> std::vec::IntoIter<(&String, &V)> {
        (0..self.len())
            .map(|i| (self.key_at(i), self.value_at(i)))
            .collect::<Vec<_>>()
            .into_iter()
    }
}

struct HashMap;

impl HashMap {
    fn new<V>() -> StrMap<V> {
        StrMap::new()
    }
}

trait ConfigFiles: Sized {
    fn from_path(cwd: &PathBuf) -> Result<Self, String>;
    fn save(&self, cwd: &PathBuf) -> Result<(), String>;
}

impl ConfigFiles for Config {
    fn from_path(cwd: &PathBuf) -> Result<Self, String> {
        load_config(&cwd.text)
    }

    fn save(&self, cwd: &PathBuf) -> Result<(), String> {
        save_config(self, &cwd.text)
    }
}

fn new_context(cwd: &PathBuf) -> Result<Context, String> {
    context_at(&cwd.text)
}

fn get_package_name(path: &str, cwd: &PathBuf) -> String {
    let resolved = absolute(&utils::resolve_path(path, &cwd.text, HOME_DIR));
    dotr::package::get_package_name(path, &cwd.text, HOME_DIR, disk_is_dir(&resolved))
}

fn package_name_of_args(args: &ImportArgs, cwd: &PathBuf) -> String {
    get_package_name(&args.path, cwd)
}

fn common_setup(cwd: &PathBuf) {
    {
        let mut disk = DISK.lock().unwrap();
        disk.files.clear();
        disk.dirs.clear();
    }
    disk_mkdir(&cwd.text).unwrap();
    disk_mkdir(HOME_DIR).unwrap();
    // Ensure src directory exists
    let src_dir = cwd.join("src");
    let _ = fs::create_dir_all(&src_dir);
    restore_test_files(cwd);
}

fn common_teardown(_cwd: &PathBuf) {
    let mut disk = DISK.lock().unwrap();
    disk.files.clear();
    disk.dirs.clear();
}

fn restore_test_files(cwd: &PathBuf) {
    let src_dir = cwd.join("src");

    // Restore .bashrc
    let _ = fs::write(
        src_dir.join(".bashrc"),
        "# Bashrc configuration\nexport PATH=\"$HOME/.local/bin:$PATH\"\nalias ls='ls --color=auto'\n",
    );

    // Restore .zshrc
    let _ = fs::write(
        src_dir.join(".zshrc"),
        "# ZSH Configuration\nexport PATH=\"$HOME/bin:$PATH\"\nalias ll='ls -la'\n",
    );

    // Restore .vimrc
    let _ = fs::write(
        src_dir.join(".vimrc"),
        "\" Vim Configuration\nset number\nset expandtab\nset tabstop=4\n",
    );

    // Restore .gitconfig
    let _ = fs::write(
        src_dir.join(".gitconfig"),
        "# Git Configuration\n[user]\n    name = Test User\n    email = test@example.com\n[core]\n    editor = vim\n",
    );

    // Restore nvim/init.lua
    let _ = fs::create_dir_all(src_dir.join("nvim"));
    let _ = fs::write(
        src_dir.join("nvim/init.lua"),
        "-- Neovim configuration\nvim.opt.number = true\nvim.opt.expandtab = true\n",
    );

    // Restore tmux files
    let _ = fs::create_dir_all(src_dir.join("tmux"));
    let _ = fs::write(
        src_dir.join("tmux/tmux.conf"),
        "# Tmux Configuration\nset -g mouse on\nbind-key r source-file ~/.tmux.conf\n",
    );
    let _ = fs::write(
        src_dir.join("tmux/theme.conf"),
        "# Tmux Theme\nset -g status-bg blue\nset -g status-fg white\n",
    );

    // Restore alacritty config
    let _ = fs::create_dir_all(src_dir.join("config/alacritty"));
    let _ = fs::write(
        src_dir.join("config/alacritty/alacritty.yml"),
        "# Alacritty Configuration\nwindow:\n  padding:\n    x: 10\n    y: 10\nfont:\n  size: 12.0\n",
    );
}

// ---------------------------------------------------------------------
// The tests.
// ---------------------------------------------------------------------

const PLAYGROUND_DIR: &str = "tests/playground";

struct TestFixture {
    cwd: PathBuf,
}

impl TestFixture {
    fn new() -> Self {
        let cwd = PathBuf::from("/tmp").join(format!("dotr_cli_test_{}", next_id()));
        common_teardown(&cwd);
        fs::create_dir_all(&cwd).expect("Failed to create temp dir");
        fs::create_dir_all(PathBuf::from(HOME_DIR)).expect("Failed to create home dir");
        Self { cwd }
    }

    fn get_cli(&self, command: Option<Command>) -> Cli {
        Cli {
            command,
            working_dir: Some(self.cwd.to_str().unwrap().to_string()),
        }
    }

    fn init(&self) {
        run_cli(self.get_cli(Some(Command::Init(InitArgs {})))).expect("Init failed");
    }

    fn import(&self, path: &str) {
        run_cli(self.get_cli(Some(Command::Import(ImportArgs {
            path: path.to_string(),
            profile: None,
        }))))
        .expect("Import failed");
    }

    fn deploy(&self, packages: Option<Vec<String>>) {
        run_cli(self.get_cli(Some(Command::Deploy(DeployUpdateArgs {
            packages,
            profile: None,
        }))))
        .expect("Deploy failed");
    }

    fn update(&self, packages: Option<Vec<String>>) {
        run_cli(self.get_cli(Some(Command::Update(DeployUpdateArgs {
            packages,
            profile: None,
        }))))
        .expect("Update failed");
    }

    fn diff(&self, packages: Option<Vec<String>>) -> Result<(), String> {
        run_cli(self.get_cli(Some(Command::Diff(DeployUpdateArgs {
            packages,
            profile: None,
        }))))
    }

    fn get_config(&self) -> Config {
        Config::from_path(&self.cwd).expect("Failed to load config")
    }

    fn get_context(&self) -> Context {
        new_context(&self.cwd).expect("Failed to create context")
    }

    fn get_context_variables(&self) -> Table {
        let mut ctx = new_context(&self.cwd).expect("Failed to create context");
        let config = self.get_config();
        ctx.extend_variables(config.variables.clone());
        ctx.get_context_variables()
    }

    fn get_package_name(&self, path: &str) -> String {
        get_package_name(path, &self.cwd)
    }

    fn assert_file_exists(&self, path: &str, message: &str) {
        assert!(self.cwd.join(path).is_present(), "{}", message);
    }

    fn assert_file_not_exists(&self, path: &str, message: &str) {
        assert!(!self.cwd.join(path).is_present(), "{}", message);
    }

    fn assert_file_contains(&self, path: &str, content: &str, message: &str) {
        let file_path = self.cwd.join(path);
        let file_content = fs::read_to_string(&file_path)
            .unwrap_or_else(|_| panic!("Failed to read file: {}", path));
        assert!(file_content.contains(content), "{}", message);
    }

    fn write_file(&self, path: &str, content: &str) {
        let file_path = self.cwd.join(path);
        if let Some(parent) = file_path.parent() {
            fs::create_dir_all(parent).expect("Failed to create parent dir");
        }
        fs::write(file_path, content).unwrap_or_else(|_| panic!("Failed to write file: {}", path));
    }

    fn read_file(&self, path: &str) -> String {
        fs::read_to_string(self.cwd.join(path)).expect("Failed to read file")
    }
}

impl Drop for TestFixture {
    fn drop(&mut self) {
        common_teardown(&self.cwd);
    }
}


#[test]
fn test_init_creates_config() {
    let fixture = TestFixture::new();

    fixture.init();

    fixture.assert_file_exists("config.toml", "config.toml should be created");
    fixture.assert_file_exists("dotfiles", "dotfiles directory should be created");
    fixture.assert_file_exists(".gitignore", ".gitignore should be created");

    let gitignore = fixture.read_file(".gitignore");
    assert!(
        gitignore.contains(".uservariables.toml"),
        ".gitignore should contain .uservariables.toml"
    );
}

#[test]
fn test_init_idempotent() {
    let fixture = TestFixture::new();

    // First init
    fixture.init();
    let first_config = fixture.read_file("config.toml");

    // Second init should not change config
    fixture.init();
    let second_config = fixture.read_file("config.toml");

    assert_eq!(
        first_config, second_config,
        "Config should not change on second init"
    );
}

#[test]
fn test_import_creates_package() {
    let fixture = TestFixture::new();

    fixture.init();
    fixture.write_file("test.conf", "test content");

    let _ = run_cli(fixture.get_cli(Some(Command::Import(ImportArgs {
        path: fixture.cwd.join("test.conf").to_str().unwrap().to_string(),
        profile: None,
    }))));

    let config = fixture.get_config();
    assert!(
        config.packages.contains_key("f_test_conf"),
        "Package should be imported"
    );

    fixture.assert_file_exists("dotfiles/f_test_conf", "File should be copied to dotfiles");
}

#[test]
fn test_import_with_profile() {
    let fixture = TestFixture::new();

    fixture.init();
    fixture.write_file("work.conf", "work content");

    let _ = run_cli(fixture.get_cli(Some(Command::Import(ImportArgs {
        path: fixture.cwd.join("work.conf").to_str().unwrap().to_string(),
        profile: Some("work".to_string()),
    }))));

    let config = fixture.get_config();
    let package = config
        .packages
        .get("f_work_conf")
        .expect("Package should exist");

    assert!(package.skip, "Package should be marked as skip");
    assert!(
        config.profiles.contains_key("work"),
        "Profile should be created"
    );

    let profile = config.profiles.get("work").unwrap();
    assert!(
        profile.dependencies.contains(&"f_work_conf".to_string()),
        "Profile should have package as dependency"
    );
}

#[test]
fn test_deploy_creates_files() {
    let fixture = TestFixture::new();

    fixture.init();
    fixture.write_file("dotfiles/f_test/config.txt", "test config");

    // Add package to config
    let mut config = fixture.get_config();

    let test_package = Package {
        name: "f_test".to_string(),
        src: "dotfiles/f_test".to_string(),
        dest: fixture
            .cwd
            .join("deploy_dest")
            .to_str()
            .unwrap()
            .to_string(),
        dependencies: None,
        variables: Table::new(),
        pre_actions: Vec::new(),
        post_actions: Vec::new(),
        targets: StrMap::new(),
        skip: false,
        prompts: HashMap::new(),
        ignore: Vec::new(),
    };

    config.packages.insert("f_test".to_string(), test_package);
    config.save(&fixture.cwd).expect("Failed to save config");

    let _ = run_cli(fixture.get_cli(Some(Command::Deploy(DeployUpdateArgs {
        packages: None,
        profile: None,
    }))));

    fixture.assert_file_exists("deploy_dest/config.txt", "Deployed file should exist");
}

#[test]
fn test_deploy_with_profile() {
    let fixture = TestFixture::new();

    fixture.init();
    fixture.write_file("dotfiles/f_app/app.conf", "app config");

    // Create package and profile
    let mut config = fixture.get_config();

    let mut package = Package {
        name: "f_app".to_string(),
        src: "dotfiles/f_app".to_string(),
        dest: fixture
            .cwd
            .join("default_dest")
            .to_str()
            .unwrap()
            .to_string(),
        dependencies: None,
        variables: Table::new(),
        pre_actions: Vec::new(),
        post_actions: Vec::new(),
        targets: StrMap::new(),
        skip: false,
        prompts: HashMap::new(),
        ignore: Vec::new(),
    };

    package.targets.insert(
        "work".to_string(),
        fixture.cwd.join("work_dest").to_str().unwrap().to_string(),
    );

    config.packages.insert("f_app".to_string(), package);

    let profile = Profile {
        name: "work".to_string(),
        variables: Table::new(),
        dependencies: vec!["f_app".to_string()],
        prompts: HashMap::new(),
    };
    config.profiles.insert("work".to_string(), profile);
    config.save(&fixture.cwd).expect("Failed to save config");

    let _ = run_cli(fixture.get_cli(Some(Command::Deploy(DeployUpdateArgs {
        packages: None,
        profile: Some("work".to_string()),
    }))));

    fixture.assert_file_exists(
        "work_dest/app.conf",
        "File should be deployed to profile target",
    );
}

#[test]
fn test_deploy_specific_packages() {
    let fixture = TestFixture::new();

    fixture.init();
    fixture.write_file("dotfiles/f_pkg1/file1.txt", "file 1");
    fixture.write_file("dotfiles/f_pkg2/file2.txt", "file 2");

    // Create two packages
    let mut config = fixture.get_config();

    let pkg1 = Package {
        name: "f_pkg1".to_string(),
        src: "dotfiles/f_pkg1".to_string(),
        dest: fixture.cwd.join("dest1").to_str().unwrap().to_string(),
        dependencies: None,
        variables: Table::new(),
        pre_actions: Vec::new(),
        post_actions: Vec::new(),
        targets: StrMap::new(),
        skip: false,
        prompts: HashMap::new(),
        ignore: Vec::new(),
    };

    let pkg2 = Package {
        name: "f_pkg2".to_string(),
        src: "dotfiles/f_pkg2".to_string(),
        dest: fixture.cwd.join("dest2").to_str().unwrap().to_string(),
        dependencies: None,
        variables: Table::new(),
        pre_actions: Vec::new(),
        post_actions: Vec::new(),
        targets: StrMap::new(),
        skip: false,
        prompts: HashMap::new(),
        ignore: Vec::new(),
    };

    config.packages.insert("f_pkg1".to_string(), pkg1);
    config.packages.insert("f_pkg2".to_string(), pkg2);
    config.save(&fixture.cwd).expect("Failed to save config");

    // Deploy only pkg1
    let _ = run_cli(fixture.get_cli(Some(Command::Deploy(DeployUpdateArgs {
        packages: Some(vec!["f_pkg1".to_string()]),
        profile: None,
    }))));

    fixture.assert_file_exists("dest1/file1.txt", "pkg1 should be deployed");
    fixture.assert_file_not_exists("dest2/file2.txt", "pkg2 should not be deployed");
}

#[test]
fn test_update_backs_up_files() {
    let fixture = TestFixture::new();

    fixture.init();

    // Create a package
    let mut config = fixture.get_config();
    let pkg = Package {
        name: "f_update".to_string(),
        src: "dotfiles/f_update".to_string(),
        dest: fixture
            .cwd
            .join("update_dest")
            .to_str()
            .unwrap()
            .to_string(),
        dependencies: None,
        variables: Table::new(),
        pre_actions: Vec::new(),
        post_actions: Vec::new(),
        targets: StrMap::new(),
        skip: false,
        prompts: HashMap::new(),
        ignore: Vec::new(),
    };
    config.packages.insert("f_update".to_string(), pkg);
    config.save(&fixture.cwd).expect("Failed to save config");

    // Create file at dest
    fixture.write_file("update_dest", "updated content");

    let _ = run_cli(fixture.get_cli(Some(Command::Update(DeployUpdateArgs {
        packages: None,
        profile: None,
    }))));

    fixture.assert_file_exists("dotfiles/f_update", "File should be backed up");
    let content = fixture.read_file("dotfiles/f_update");
    assert_eq!(content, "updated content", "Backed up content should match");
}

#[test]
fn test_print_vars_shows_variables() {
    let fixture = TestFixture::new();

    fixture.init();

    // Add some variables to config
    let mut config = fixture.get_config();
    config.variables.insert(
        "TEST_VAR".to_string(),
        TomlValue::String("test_value".to_string()),
    );
    config.save(&fixture.cwd).expect("Failed to save config");

    // This will print to stdout - we're just testing it doesn't panic
    run_cli(fixture.get_cli(Some(Command::PrintVars(PrintVarsArgs { profile: None }))))
        .expect("Print vars should succeed");
}

#[test]
fn test_print_vars_with_profile() {
    let fixture = TestFixture::new();

    fixture.init();

    // Create profile with variables
    let mut config = fixture.get_config();
    let mut profile = Profile::new("dev");
    profile.variables.insert(
        "PROFILE_VAR".to_string(),
        TomlValue::String("dev_value".to_string()),
    );
    config.profiles.insert("dev".to_string(), profile);
    config.save(&fixture.cwd).expect("Failed to save config");

    // This will print to stdout - we're just testing it doesn't panic
    let _ = run_cli(fixture.get_cli(Some(Command::PrintVars(PrintVarsArgs {
        profile: Some("dev".to_string()),
    }))));
}

#[test]
fn test_banner_display() {
    let fixture = TestFixture::new();

    fixture.init();

    // Banner is controlled by config
    let mut config = fixture.get_config();
    config.banner = true;
    config.save(&fixture.cwd).expect("Failed to save config");

    // Deploy command should show banner
    let _ = run_cli(fixture.get_cli(Some(Command::Deploy(DeployUpdateArgs {
        packages: None,
        profile: None,
    }))));

    // Just testing it doesn't panic
}

#[test]
fn test_banner_disabled() {
    let fixture = TestFixture::new();

    fixture.init();

    // Disable banner
    let mut config = fixture.get_config();
    config.banner = false;
    config.save(&fixture.cwd).expect("Failed to save config");

    // Deploy command should not show banner
    let _ = run_cli(fixture.get_cli(Some(Command::Deploy(DeployUpdateArgs {
        packages: None,
        profile: None,
    }))));

    // Just testing it doesn't panic
}

#[test]
fn test_working_dir_relative_path() {
    let fixture = TestFixture::new();

    // Create a subdirectory
    fs::create_dir_all(fixture.cwd.join("subdir")).expect("Failed to create subdir");

    let cli = Cli {
        command: Some(Command::Init(InitArgs {})),
        working_dir: Some(fixture.cwd.join("subdir").to_str().unwrap().to_string()),
    };

    run_cli(cli).expect("Init in subdir should succeed");

    fixture.assert_file_exists("subdir/config.toml", "Config should be created in subdir");
}

#[test]
fn test_skip_flag_prevents_deployment() {
    let fixture = TestFixture::new();

    fixture.init();
    fixture.write_file("dotfiles/f_skip/skip.txt", "skip content");

    // Create package with skip flag
    let mut config = fixture.get_config();
    let pkg = Package {
        name: "f_skip".to_string(),
        src: "dotfiles/f_skip".to_string(),
        dest: fixture.cwd.join("skip_dest").to_str().unwrap().to_string(),
        dependencies: None,
        variables: Table::new(),
        pre_actions: Vec::new(),
        post_actions: Vec::new(),
        targets: StrMap::new(),
        skip: true,
        prompts: HashMap::new(),
        ignore: Vec::new(),
    };
    config.packages.insert("f_skip".to_string(), pkg);
    config.save(&fixture.cwd).expect("Failed to save config");

    // Deploy without profile (skip packages should not be deployed)
    let _ = run_cli(fixture.get_cli(Some(Command::Deploy(DeployUpdateArgs {
        packages: None,
        profile: None,
    }))));

    fixture.assert_file_not_exists("skip_dest/skip.txt", "Skip package should not be deployed");
}

#[test]
fn test_profile_dependencies_deployment() {
    let fixture = TestFixture::new();

    fixture.init();
    fixture.write_file("dotfiles/f_dep1/dep1.txt", "dep1");
    fixture.write_file("dotfiles/f_dep2/dep2.txt", "dep2");

    // Create packages and profile
    let mut config = fixture.get_config();

    let pkg1 = Package {
        name: "f_dep1".to_string(),
        src: "dotfiles/f_dep1".to_string(),
        dest: fixture.cwd.join("dep1_dest").to_str().unwrap().to_string(),
        dependencies: None,
        variables: Table::new(),
        pre_actions: Vec::new(),
        post_actions: Vec::new(),
        targets: StrMap::new(),
        skip: true,
        prompts: HashMap::new(),
        ignore: Vec::new(),
    };

    let pkg2 = Package {
        name: "f_dep2".to_string(),
        src: "dotfiles/f_dep2".to_string(),
        dest: fixture.cwd.join("dep2_dest").to_str().unwrap().to_string(),
        dependencies: None,
        variables: Table::new(),
        pre_actions: Vec::new(),
        post_actions: Vec::new(),
        targets: StrMap::new(),
        skip: true,
        prompts: HashMap::new(),
        ignore: Vec::new(),
    };

    config.packages.insert("f_dep1".to_string(), pkg1);
    config.packages.insert("f_dep2".to_string(), pkg2);

    // Profile with only dep1 as dependency
    let profile = Profile {
        name: "minimal".to_string(),
        variables: Table::new(),
        dependencies: vec!["f_dep1".to_string()],
        prompts: HashMap::new(),
    };
    config.profiles.insert("minimal".to_string(), profile);
    config.save(&fixture.cwd).expect("Failed to save config");

    // Deploy with profile
    let _ = run_cli(fixture.get_cli(Some(Command::Deploy(DeployUpdateArgs {
        packages: None,
        profile: Some("minimal".to_string()),
    }))));

    fixture.assert_file_exists(
        "dep1_dest/dep1.txt",
        "Profile dependency should be deployed",
    );
    fixture.assert_file_not_exists(
        "dep2_dest/dep2.txt",
        "Non-dependency should not be deployed",
    );
}

#[test]
fn test_no_command_shows_help_message() {
    let fixture = TestFixture::new();

    let cli = Cli {
        command: None,
        working_dir: Some(fixture.cwd.to_str().unwrap().to_string()),
    };

    let result = run_cli(cli);
    assert!(result.is_ok(), "No command should not error");
}

// ===== UNHAPPY PATH TESTS =====

#[test]
fn test_nonexistent_working_directory_fails() {
    let nonexistent = PathBuf::from("/this/path/does/not/exist/dotr_test");

    let cli = Cli {
        command: Some(Command::Deploy(DeployUpdateArgs {
            packages: None,
            profile: None,
        })),
        working_dir: Some(nonexistent.to_str().unwrap().to_string()),
    };

    let result = run_cli(cli);
    assert!(result.is_err(), "Should fail with nonexistent directory");
    assert!(
        result.unwrap_err().to_string().contains("does not exist"),
        "Error should mention directory doesn't exist"
    );
}

#[test]
fn test_deploy_without_config_fails() {
    let fixture = TestFixture::new();

    let result = run_cli(fixture.get_cli(Some(Command::Deploy(DeployUpdateArgs {
        packages: None,
        profile: None,
    }))));

    assert!(result.is_err(), "Deploy without config should fail");
    assert!(
        result
            .unwrap_err()
            .to_string()
            .contains("config.toml not found"),
        "Error should mention missing config"
    );
}

#[test]
fn test_import_nonexistent_file_fails() {
    let fixture = TestFixture::new();
    fixture.init();

    let result = run_cli(
        fixture.get_cli(Some(Command::Import(ImportArgs {
            path: fixture
                .cwd
                .join("does_not_exist.conf")
                .to_str()
                .unwrap()
                .to_string(),
            profile: None,
        }))),
    );

    assert!(result.is_err(), "Import nonexistent file should fail");
    assert!(
        result.unwrap_err().to_string().contains("does not exist"),
        "Error should mention file doesn't exist"
    );
}

#[test]
fn test_deploy_with_invalid_profile_fails() {
    let fixture = TestFixture::new();
    fixture.init();

    let result = run_cli(fixture.get_cli(Some(Command::Deploy(DeployUpdateArgs {
        packages: None,
        profile: Some("nonexistent_profile".to_string()),
    }))));

    assert!(result.is_err(), "Deploy with invalid profile should fail");
    assert!(
        result.unwrap_err().to_string().contains("not found"),
        "Error should mention profile not found"
    );
}

#[test]
fn test_update_with_invalid_profile_fails() {
    let fixture = TestFixture::new();
    fixture.init();

    let result = run_cli(fixture.get_cli(Some(Command::Update(DeployUpdateArgs {
        packages: None,
        profile: Some("invalid_profile".to_string()),
    }))));

    assert!(result.is_err(), "Update with invalid profile should fail");
    assert!(
        result.unwrap_err().to_string().contains("not found"),
        "Error should mention profile not found"
    );
}

#[test]
fn test_print_vars_with_invalid_profile_fails() {
    let fixture = TestFixture::new();
    fixture.init();

    let result = run_cli(fixture.get_cli(Some(Command::PrintVars(PrintVarsArgs {
        profile: Some("missing_profile".to_string()),
    }))));

    assert!(
        result.is_err(),
        "PrintVars with invalid profile should fail"
    );
    assert!(
        result.unwrap_err().to_string().contains("not found"),
        "Error should mention profile not found"
    );
}

#[test]
fn test_deploy_nonexistent_package_fails() {
    let fixture = TestFixture::new();
    fixture.init();

    let result = run_cli(fixture.get_cli(Some(Command::Deploy(DeployUpdateArgs {
        packages: Some(vec!["nonexistent_package".to_string()]),
        profile: None,
    }))));

    // Deploy should fail with error for nonexistent package
    assert!(
        result.is_err(),
        "Deploy with nonexistent package should error"
    );
    assert!(
        result.unwrap_err().to_string().contains("not found"),
        "Error should mention package not found"
    );
}

#[test]
fn test_update_nonexistent_package_fails() {
    let fixture = TestFixture::new();
    fixture.init();

    let result = run_cli(fixture.get_cli(Some(Command::Update(DeployUpdateArgs {
        packages: Some(vec!["nonexistent_package".to_string()]),
        profile: None,
    }))));

    // Update should fail with error for nonexistent package
    assert!(
        result.is_err(),
        "Update with nonexistent package should error"
    );
    assert!(
        result.unwrap_err().to_string().contains("not found"),
        "Error should mention package not found"
    );
}

#[test]
fn test_invalid_toml_config_fails() {
    let fixture = TestFixture::new();
    fixture.init();

    // Corrupt the config file
    fixture.write_file("config.toml", "invalid toml {{{ syntax");

    let result = run_cli(fixture.get_cli(Some(Command::Deploy(DeployUpdateArgs {
        packages: None,
        profile: None,
    }))));

    assert!(result.is_err(), "Invalid TOML config should fail");
}

#[test]
fn test_invalid_uservariables_toml_fails() {
    let fixture = TestFixture::new();
    fixture.init();

    // Create invalid .uservariables.toml
    fixture.write_file(".uservariables.toml", "bad toml [[[");

    // Use PrintVars which will definitely try to load context
    let result =
        run_cli(fixture.get_cli(Some(Command::PrintVars(PrintVarsArgs { profile: None }))));

    assert!(result.is_err(), "Invalid uservariables TOML should fail");
    let error_msg = result.unwrap_err().to_string();
    assert!(
        error_msg.contains("parse") || error_msg.contains("Failed to parse"),
        "Error should mention parsing failure, got: {}",
        error_msg
    );
}

#[test]
fn test_package_with_missing_dependency_fails() {
    let fixture = TestFixture::new();
    fixture.init();

    // Create package with nonexistent dependency
    let mut config = fixture.get_config();
    let pkg = Package {
        name: "test_pkg".to_string(),
        src: "dotfiles/test_pkg".to_string(),
        dest: fixture.cwd.join("dest").to_str().unwrap().to_string(),
        dependencies: Some(vec!["nonexistent_dep".to_string()]),
        variables: Table::new(),
        pre_actions: Vec::new(),
        post_actions: Vec::new(),
        targets: StrMap::new(),
        skip: false,
        prompts: HashMap::new(),
        ignore: Vec::new(),
    };
    config.packages.insert("test_pkg".to_string(), pkg);
    config.save(&fixture.cwd).expect("Failed to save config");

    let result = run_cli(fixture.get_cli(Some(Command::Deploy(DeployUpdateArgs {
        packages: Some(vec!["test_pkg".to_string()]),
        profile: None,
    }))));

    assert!(
        result.is_err(),
        "Package with missing dependency should fail"
    );
    assert!(
        result.unwrap_err().to_string().contains("not found"),
        "Error should mention dependency not found"
    );
}

#[test]
fn test_deploy_missing_source_fails() {
    let fixture = TestFixture::new();
    fixture.init();

    // Create package but don't create source files
    let mut config = fixture.get_config();
    let pkg = Package {
        name: "missing_src".to_string(),
        src: "dotfiles/missing_src".to_string(),
        dest: fixture.cwd.join("dest").to_str().unwrap().to_string(),
        dependencies: None,
        variables: Table::new(),
        pre_actions: Vec::new(),
        post_actions: Vec::new(),
        targets: StrMap::new(),
        skip: false,
        prompts: HashMap::new(),
        ignore: Vec::new(),
    };
    config.packages.insert("missing_src".to_string(), pkg);
    config.save(&fixture.cwd).expect("Failed to save config");

    let result = run_cli(fixture.get_cli(Some(Command::Deploy(DeployUpdateArgs {
        packages: None,
        profile: None,
    }))));

    // This might succeed as walkdir might not find any files, depending on implementation
    // If src directory doesn't exist, it should fail
    if let Err(e) = result {
        let error_msg = e.to_string();
        assert!(
            error_msg.contains("No such file") || error_msg.contains("does not exist"),
            "Error should mention missing source, got: {}",
            error_msg
        );
    }
}

#[test]
fn test_import_normalizes_home_path() {
    let fixture = TestFixture::new();
    fixture.init();

    // Create a test file in a subdirectory
    let test_dir = fixture.cwd.join("test_import");
    fs::create_dir_all(&test_dir).expect("Failed to create test dir");
    fs::write(test_dir.join("test.txt"), "content").expect("Failed to write test file");

    // Import the file
    let _ = run_cli(fixture.get_cli(Some(Command::Import(ImportArgs {
        path: test_dir.to_str().unwrap().to_string(),
        profile: None,
    }))));

    let config = fixture.get_config();
    let package = config
        .packages
        .values()
        .next()
        .expect("Should have package");

    // Path should not have ~ since it's not in home directory
    assert!(
        !package.dest.starts_with('~'),
        "Non-home path should not use ~"
    );
}

#[test]
fn test_import_converts_absolute_home_path_to_tilde() {
    let fixture = TestFixture::new();
    fixture.init();

    // Test 1: Path outside home should remain absolute
    let test_file = fixture.cwd.join("test_file.txt");
    fs::write(&test_file, "content").expect("Failed to write test file");

    let abs_path = test_file.to_str().unwrap().to_string();
    let _ = run_cli(fixture.get_cli(Some(Command::Import(ImportArgs {
        path: abs_path.clone(),
        profile: None,
    }))));

    let config = fixture.get_config();
    let package = config
        .packages
        .values()
        .next()
        .expect("Should have package");

    // Since the path is NOT in home directory, it should remain absolute
    assert!(
        !package.dest.starts_with('~'),
        "Path outside home should not use ~ notation, got: {}",
        package.dest
    );

    // Test 2: Verify utility function correctly normalizes home paths
    let home = Some(PathBuf::from(HOME_DIR)).expect("Should have home dir");
    let mock_home_path = format!("{}/test/path", home.to_string_lossy());
    let normalized = utils::normalize_home_path(&mock_home_path, Some(HOME_DIR));
    assert!(
        normalized.starts_with('~'),
        "Path in home directory should be normalized to ~, got: {}",
        normalized
    );
    assert_eq!(
        normalized, "~/test/path",
        "Path should be correctly normalized"
    );
}

#[test]
fn test_dotr_profile_env_var_deploy() {
    let fixture = TestFixture::new();
    fixture.init();

    // Create a test file
    fixture.write_file("dotfiles/f_profile_test/profile.conf", "profile content");

    // Create package and profile
    let mut config = fixture.get_config();
    let package = Package {
        name: "f_profile_test".to_string(),
        src: "dotfiles/f_profile_test".to_string(),
        dest: "src/.profile_test".to_string(),
        dependencies: None,
        variables: Table::new(),
        pre_actions: vec![],
        post_actions: vec![],
        targets: StrMap::new(),
        skip: true,
        prompts: HashMap::new(),
        ignore: Vec::new(),
    };

    let profile = Profile {
        name: "testenv".to_string(),
        variables: Table::new(),
        dependencies: vec!["f_profile_test".to_string()],
        prompts: HashMap::new(),
    };

    config
        .packages
        .insert("f_profile_test".to_string(), package);
    config.profiles.insert("testenv".to_string(), profile);
    config.save(&fixture.cwd).expect("Failed to save config");

    // Set DOTR_PROFILE env var
    fixture.write_file(".uservariables.toml", "DOTR_PROFILE = \"testenv\"\n");

    // Deploy without specifying profile (should use env var)
    let result = run_cli(fixture.get_cli(Some(Command::Deploy(DeployUpdateArgs {
        packages: None,
        profile: None,
    }))));

    assert!(
        result.is_ok(),
        "Deploy should succeed with DOTR_PROFILE env var"
    );
    fixture.assert_file_exists(
        "src/.profile_test",
        "File should be deployed using DOTR_PROFILE env var",
    );
}

#[test]
fn test_dotr_profile_env_var_update() {
    let fixture = TestFixture::new();
    fixture.init();

    // Create dest directory
    fs::create_dir_all(fixture.cwd.join("dest")).expect("Failed to create dest dir");

    // Create profile and package with a single file
    fixture.write_file("dotfiles/f_env_update", "original");

    let mut config = fixture.get_config();
    let dest_path = fixture.cwd.join("dest/.env_update");
    let package = Package {
        name: "f_env_update".to_string(),
        src: "dotfiles/f_env_update".to_string(),
        dest: dest_path.to_str().unwrap().to_string(),
        dependencies: None,
        variables: Table::new(),
        pre_actions: vec![],
        post_actions: vec![],
        targets: StrMap::new(),
        skip: false,
        prompts: HashMap::new(),
        ignore: Vec::new(),
    };

    let profile = Profile {
        name: "updateenv".to_string(),
        variables: Table::new(),
        dependencies: vec!["f_env_update".to_string()],
        prompts: HashMap::new(),
    };

    config.packages.insert("f_env_update".to_string(), package);
    config.profiles.insert("updateenv".to_string(), profile);
    config.save(&fixture.cwd).expect("Failed to save config");

    // Deploy first
    run_cli(fixture.get_cli(Some(Command::Deploy(DeployUpdateArgs {
        packages: Some(vec!["f_env_update".to_string()]),
        profile: None,
    }))))
    .expect("Deploy failed");

    // Modify deployed file
    fixture.write_file("dest/.env_update", "modified");

    // Set profile via env var
    fixture.write_file(".uservariables.toml", "DOTR_PROFILE = \"updateenv\"\n");

    // Update without specifying profile - should succeed with profile from env var
    let result = run_cli(fixture.get_cli(Some(Command::Update(DeployUpdateArgs {
        packages: Some(vec!["f_env_update".to_string()]),
        profile: None,
    }))));

    assert!(
        result.is_ok(),
        "Update should succeed with DOTR_PROFILE env var"
    );
}

#[test]
fn test_dotr_profile_env_var_print_vars() {
    let fixture = TestFixture::new();
    fixture.init();

    // Create profile with variables
    let mut config = fixture.get_config();
    let mut profile_vars = Table::new();
    profile_vars.insert(
        "PROFILE_VAR".to_string(),
        TomlValue::String("from_env_profile".to_string()),
    );

    let profile = Profile {
        name: "printenv".to_string(),
        variables: profile_vars,
        dependencies: vec![],
        prompts: HashMap::new(),
    };

    config.profiles.insert("printenv".to_string(), profile);
    config.save(&fixture.cwd).expect("Failed to save config");

    // Set profile via env var
    fixture.write_file(".uservariables.toml", "DOTR_PROFILE = \"printenv\"\n");

    // Should work without specifying profile
    let result =
        run_cli(fixture.get_cli(Some(Command::PrintVars(PrintVarsArgs { profile: None }))));

    assert!(
        result.is_ok(),
        "PrintVars should succeed with DOTR_PROFILE env var"
    );
}

#[test]
fn test_cli_profile_overrides_env_var() {
    let fixture = TestFixture::new();
    fixture.init();

    fixture.write_file("dotfiles/f_override/override.txt", "content");

    let mut config = fixture.get_config();
    let package = Package {
        name: "f_override".to_string(),
        src: "dotfiles/f_override".to_string(),
        dest: "src/.override".to_string(),
        dependencies: None,
        variables: Table::new(),
        pre_actions: vec![],
        post_actions: vec![],
        targets: StrMap::new(),
        skip: true,
        prompts: HashMap::new(),
        ignore: Vec::new(),
    };

    let profile1 = Profile {
        name: "envprofile".to_string(),
        variables: Table::new(),
        dependencies: vec!["f_override".to_string()],
        prompts: HashMap::new(),
    };

    let profile2 = Profile {
        name: "cliprofile".to_string(),
        variables: Table::new(),
        dependencies: vec!["f_override".to_string()],
        prompts: HashMap::new(),
    };

    config.packages.insert("f_override".to_string(), package);
    config.profiles.insert("envprofile".to_string(), profile1);
    config.profiles.insert("cliprofile".to_string(), profile2);
    config.save(&fixture.cwd).expect("Failed to save config");

    // Set env var to one profile
    fixture.write_file(".uservariables.toml", "DOTR_PROFILE = \"envprofile\"\n");

    // But explicitly pass different profile via CLI
    let result = run_cli(fixture.get_cli(Some(Command::Deploy(DeployUpdateArgs {
        packages: None,
        profile: Some("cliprofile".to_string()),
    }))));

    assert!(result.is_ok(), "Deploy should use CLI profile over env var");
    fixture.assert_file_exists(
        "src/.override",
        "File should be deployed with CLI-specified profile",
    );
}

#[test]
fn test_invalid_dotr_profile_env_var_ignored() {
    let fixture = TestFixture::new();
    fixture.init();

    fixture.write_file("dotfiles/f_invalid_env/test.txt", "content");

    let mut config = fixture.get_config();
    let package = Package {
        name: "f_invalid_env".to_string(),
        src: "dotfiles/f_invalid_env".to_string(),
        dest: "src/.invalid_env".to_string(),
        dependencies: None,
        variables: Table::new(),
        pre_actions: vec![],
        post_actions: vec![],
        targets: StrMap::new(),
        skip: false,
        prompts: HashMap::new(),
        ignore: Vec::new(),
    };

    config.packages.insert("f_invalid_env".to_string(), package);
    config.save(&fixture.cwd).expect("Failed to save config");

    // Set env var to non-existent profile
    fixture.write_file(".uservariables.toml", "DOTR_PROFILE = \"nonexistent\"\n");

    // Deploy without profile should fail (env var points to invalid profile)
    let result = run_cli(fixture.get_cli(Some(Command::Deploy(DeployUpdateArgs {
        packages: None,
        profile: None,
    }))));

    assert!(
        result.is_err(),
        "Deploy should fail with invalid DOTR_PROFILE env var"
    );
}
