//! The configuration of the tool (`cncr.toml`): the context-menu commands, each with
//! its label, whether it is enabled, the menu targets it appears on and its extra
//! parameters.
use vstd::prelude::*;

use crate::settings::{Extra, pair_seqs};
use crate::chars::{from_chars, push_all, string_seqs, to_chars};
use crate::order::{sorted_texts, text_order};
use crate::paths::{dot, dotdot, final_component, is_sep, last_sep, path_file_name, trim_seps_end};

verus! {

/// The settings of one command.
pub struct CommandConfig {
    /// Text shown in the context menu.
    pub label: String,
    /// Whether the command appears in the context menu.
    pub enabled: bool,
    /// Context-menu targets: `file`, `directory`, `background`.
    pub targets: Vec<String>,
    /// Icon index (no longer used; kept for older configuration files).
    pub icon: Option<u32>,
    /// Extra parameters of the command.
    pub extra: Extra,
}

/// A command's settings as plain values.
pub struct CommandView {
    pub label: Seq<char>,
    pub enabled: bool,
    pub targets: Seq<Seq<char>>,
    pub icon: Option<u32>,
    pub extra: Seq<(Seq<char>, Seq<char>)>,
}

impl View for CommandConfig {
    type V = CommandView;

    open spec fn view(&self) -> CommandView {
        CommandView {
            label: self.label@,
            enabled: self.enabled,
            targets: string_seqs(self.targets@),
            icon: self.icon,
            extra: self.extra@,
        }
    }
}

/// The whole configuration.
pub struct Config {
    /// Name of the context-menu entry that holds the commands.
    pub context_menu_name: Option<String>,
    /// The commands, by name.
    pub commands: Vec<(String, CommandConfig)>,
}

/// The configuration as plain values.
pub struct ConfigView {
    pub menu_name: Option<Seq<char>>,
    pub commands: Seq<(Seq<char>, CommandView)>,
}

/// The commands of a configuration as plain values.
pub open spec fn command_seqs(v: Seq<(String, CommandConfig)>) -> Seq<(Seq<char>, CommandView)> {
    v.map_values(|p: (String, CommandConfig)| (p.0@, p.1@))
}

impl View for Config {
    type V = ConfigView;

    open spec fn view(&self) -> ConfigView {
        ConfigView {
            menu_name: match self.context_menu_name {
                Some(n) => Some(n@),
                None => None,
            },
            commands: command_seqs(self.commands@),
        }
    }
}

/// The default configuration: the commands `rename` (on files, directories and the
/// directory background; `prefix`, `suffix`, `overwrite`, `recurse`), `archive`
/// (files; `date_format`, `timestamp_source`), `strip-comments` (files; `keep_string`,
/// `comment_chars`, `strip_mode`) and `generate-tool-list` (files; the insertion line
/// of each dialect), all enabled, under the menu name `CNC Remedy`.
pub open spec fn default_config() -> ConfigView {
    ConfigView {
        menu_name: Some("CNC Remedy"@),
        commands: seq![
            ("rename"@, default_rename()),
            ("archive"@, default_archive()),
            ("strip-comments"@, default_strip()),
            ("generate-tool-list"@, default_generate()),
        ],
    }
}

/// The default settings of `rename`.
pub open spec fn default_rename() -> CommandView {
    CommandView {
        label: "Переименовать УП"@,
        enabled: true,
        targets: seq!["file"@, "directory"@, "background"@],
        icon: Some(1u32),
        extra: seq![
            ("prefix"@, ""@),
            ("suffix"@, ""@),
            ("overwrite"@, "false"@),
            ("recurse"@, "false"@),
        ],
    }
}

/// The default settings of `archive`.
pub open spec fn default_archive() -> CommandView {
    CommandView {
        label: "Архивировать УП"@,
        enabled: true,
        targets: seq!["file"@],
        icon: Some(2u32),
        extra: seq![("date_format"@, "%d%m%y.%H%M"@), ("timestamp_source"@, "now"@)],
    }
}

/// The default settings of `strip-comments`.
pub open spec fn default_strip() -> CommandView {
    CommandView {
        label: "Очистить комментарии"@,
        enabled: true,
        targets: seq!["file"@],
        icon: Some(3u32),
        extra: seq![
            ("keep_string"@, "MSG"@),
            ("comment_chars"@, ";"@),
            ("strip_mode"@, "starts-with"@),
        ],
    }
}

/// The default settings of `generate-tool-list`.
pub open spec fn default_generate() -> CommandView {
    CommandView {
        label: "Сформировать список инструмента"@,
        enabled: true,
        targets: seq!["file"@],
        icon: None,
        extra: seq![
            ("fanuc_milling_line"@, "6"@),
            ("fanuc_lathe_line"@, "6"@),
            ("sinumerik_line"@, "6"@),
            ("heidenhain_line"@, "3"@),
        ],
    }
}

fn text(s: &str) -> (r: String)
    ensures
        r@ == s@,
{
    String::from_str(s)
}

fn pair(k: &str, v: &str) -> (r: (String, String))
    ensures
        r.0@ == k@,
        r.1@ == v@,
{
    (text(k), text(v))
}

fn extra_of(pairs: Vec<(String, String)>) -> (r: Extra)
    ensures
        r@ == pair_seqs(pairs@),
{
    Extra { entries: pairs }
}

impl Default for Config {
    /// The default configuration (see [`default_config`]).
    fn default() -> (r: Config)
        ensures
            r@ == default_config(),
    {
        let rename = CommandConfig {
            label: text("Переименовать УП"),
            enabled: true,
            targets: vec![text("file"), text("directory"), text("background")],
            icon: Some(1),
            extra: extra_of(
                vec![
                    pair("prefix", ""),
                    pair("suffix", ""),
                    pair("overwrite", "false"),
                    pair("recurse", "false"),
                ],
            ),
        };
        assert(rename@.targets =~= default_rename().targets);
        assert(rename@.extra =~= default_rename().extra);
        assert(rename@ == default_rename());
        let archive = CommandConfig {
            label: text("Архивировать УП"),
            enabled: true,
            targets: vec![text("file")],
            icon: Some(2),
            extra: extra_of(
                vec![pair("date_format", "%d%m%y.%H%M"), pair("timestamp_source", "now")],
            ),
        };
        assert(archive@.targets =~= default_archive().targets);
        assert(archive@.extra =~= default_archive().extra);
        assert(archive@ == default_archive());
        let strip = CommandConfig {
            label: text("Очистить комментарии"),
            enabled: true,
            targets: vec![text("file")],
            icon: Some(3),
            extra: extra_of(
                vec![
                    pair("keep_string", "MSG"),
                    pair("comment_chars", ";"),
                    pair("strip_mode", "starts-with"),
                ],
            ),
        };
        assert(strip@.targets =~= default_strip().targets);
        assert(strip@.extra =~= default_strip().extra);
        assert(strip@ == default_strip());
        let generate = CommandConfig {
            label: text("Сформировать список инструмента"),
            enabled: true,
            targets: vec![text("file")],
            icon: None,
            extra: extra_of(
                vec![
                    pair("fanuc_milling_line", "6"),
                    pair("fanuc_lathe_line", "6"),
                    pair("sinumerik_line", "6"),
                    pair("heidenhain_line", "3"),
                ],
            ),
        };
        assert(generate@.targets =~= default_generate().targets);
        assert(generate@.extra =~= default_generate().extra);
        assert(generate@ == default_generate());
        let commands = vec![
            (text("rename"), rename),
            (text("archive"), archive),
            (text("strip-comments"), strip),
            (text("generate-tool-list"), generate),
        ];
        let r = Config { context_menu_name: Some(text("CNC Remedy")), commands };
        assert(r@.commands =~= default_config().commands);
        assert(r@ == default_config());
        r
    }
}

/// The names of the configured commands, in the configuration's order.
pub open spec fn command_names(cmds: Seq<(Seq<char>, CommandView)>) -> Seq<Seq<char>> {
    cmds.map_values(|p: (Seq<char>, CommandView)| p.0)
}

/// No two commands share a name (the configuration file keys the commands by name).
pub open spec fn names_unique(cmds: Seq<(Seq<char>, CommandView)>) -> bool {
    forall|i: int, j: int| 0 <= i < j < cmds.len() ==> cmds[i].0 != cmds[j].0
}

/// The default configuration names each of its commands once.
pub proof fn lemma_default_names_unique()
    ensures
        names_unique(default_config().commands),
{
    reveal_strlit("rename");
    reveal_strlit("archive");
    reveal_strlit("strip-comments");
    reveal_strlit("generate-tool-list");
    assert("rename"@.len() == 6 && "archive"@.len() == 7);
    assert("strip-comments"@.len() == 14 && "generate-tool-list"@.len() == 18);
}

/// The names of the configured commands, in the configuration's order.
pub fn command_name_list(config: &Config) -> (r: Vec<String>)
    ensures
        string_seqs(r@) == command_names(config@.commands),
{
    let mut r: Vec<String> = Vec::new();
    let mut i: usize = 0;
    while i < config.commands.len()
        invariant
            i <= config.commands@.len(),
            string_seqs(r@) == command_names(config@.commands).take(i as int),
        decreases config.commands@.len() - i,
    {
        assert(command_names(config@.commands)[i as int] == config.commands@[i as int].0@);
        let name = config.commands[i].0.clone();
        let ghost prev = r@;
        r.push(name);
        assert(string_seqs(r@) =~= string_seqs(prev).push(name@));
        assert(string_seqs(r@) =~= command_names(config@.commands).take(i + 1));
        i += 1;
    }
    assert(command_names(config@.commands).take(i as int) =~= command_names(config@.commands));
    r
}

/// The names of the configured commands, sorted into ascending order.
pub fn sorted_command_names(config: &Config) -> (r: Vec<String>)
    ensures
        string_seqs(r@) == command_names(config@.commands).sort_by(text_order()),
        r@.len() == config@.commands.len(),
{
    let names = command_name_list(config);
    assert(command_names(config@.commands).len() == config@.commands.len());
    sorted_texts(&names)
}

/// `name` joined to the path `base` as `Path::join` does on Windows: with no base,
/// `name` alone; after a separator or a bare drive (`C:`), no separator is added;
/// otherwise `\\` goes between.
pub open spec fn join_path(base: Seq<char>, name: Seq<char>) -> Seq<char> {
    if base.len() == 0 {
        name
    } else if base.last() == '\\' || base.last() == '/' || (base.len() == 2 && base[1] == ':') {
        base + name
    } else {
        base + seq!['\\'] + name
    }
}

fn join_path_exec(base: &[char], name: &str) -> (r: Vec<char>)
    ensures
        r@ == join_path(base@, name@),
{
    let mut out: Vec<char> = Vec::new();
    push_all(&mut out, base);
    let n = base.len();
    if n > 0 && !(base[n - 1] == '\\' || base[n - 1] == '/' || (n == 2 && base[1] == ':')) {
        out.push('\\');
    }
    push_all(&mut out, &to_chars(name));
    assert(out@ =~= join_path(base@, name@));
    out
}

/// The directory of the configuration: `dece1ver\CNC Remedy` in the `ProgramData`
/// directory, or the current directory `.` when `ProgramData` is not set.
pub open spec fn config_dir_of(program_data: Option<Seq<char>>) -> Seq<char> {
    match program_data {
        Some(p) => join_path(join_path(p, "dece1ver"@), "CNC Remedy"@),
        None => seq!['.'],
    }
}

/// The path of the configuration file: `cncr.toml` in [`config_dir_of`].
pub open spec fn config_path_of(program_data: Option<Seq<char>>) -> Seq<char> {
    match program_data {
        Some(p) => join_path(join_path(join_path(p, "dece1ver"@), "CNC Remedy"@), "cncr.toml"@),
        None => join_path(seq!['.'], "cncr.toml"@),
    }
}

/// An optional text as an optional character sequence.
pub open spec fn str_opt(s: Option<&str>) -> Option<Seq<char>> {
    match s {
        Some(t) => Some(t@),
        None => None,
    }
}

/// The directory of the configuration, from the value of `ProgramData` (see
/// [`config_dir_of`]).
pub fn config_dir(program_data: Option<&str>) -> (r: String)
    ensures
        r@ == config_dir_of(str_opt(program_data)),
{
    match program_data {
        Some(p) => {
            let a = join_path_exec(&to_chars(p), "dece1ver");
            from_chars(&join_path_exec(&a, "CNC Remedy"))
        },
        None => {
            let dot = vec!['.'];
            assert(dot@ =~= seq!['.']);
            from_chars(&dot)
        },
    }
}

/// The path of the configuration file, from the value of `ProgramData` (see
/// [`config_path_of`]).
pub fn config_path(program_data: Option<&str>) -> (r: String)
    ensures
        r@ == config_path_of(str_opt(program_data)),
{
    match program_data {
        Some(p) => {
            let a = join_path_exec(&to_chars(p), "dece1ver");
            let b = join_path_exec(&a, "CNC Remedy");
            from_chars(&join_path_exec(&b, "cncr.toml"))
        },
        None => {
            let dot = vec!['.'];
            assert(dot@ =~= seq!['.']);
            from_chars(&join_path_exec(&dot, "cncr.toml"))
        },
    }
}

/// The configuration file lies in the configuration directory.
pub proof fn lemma_config_file_in_dir(program_data: Option<Seq<char>>)
    ensures
        config_path_of(program_data) == join_path(config_dir_of(program_data), "cncr.toml"@),
{
}


proof fn lemma_last_sep_before_name(a: Seq<char>, n: Seq<char>)
    requires
        forall|j: int| 0 <= j < n.len() ==> !is_sep(#[trigger] n[j]),
    ensures
        last_sep(a + seq!['\\'] + n) == Some(a.len() as int),
    decreases n.len(),
{
    let s = a + seq!['\\'] + n;
    if n.len() == 0 {
        assert(s.last() == '\\');
    } else {
        assert(s.last() == n.last());
        assert(s.drop_last() =~= a + seq!['\\'] + n.drop_last());
        lemma_last_sep_before_name(a, n.drop_last());
    }
}

/// The file name of the configuration path is `cncr.toml`, whatever `ProgramData` is.
pub proof fn lemma_config_file_name(program_data: Option<Seq<char>>)
    ensures
        path_file_name(config_path_of(program_data)) == Some("cncr.toml"@),
{
    reveal_strlit("cncr.toml");
    reveal_strlit("CNC Remedy");
    let n = "cncr.toml"@;
    let dir = match program_data {
        Some(p) => join_path(join_path(p, "dece1ver"@), "CNC Remedy"@),
        None => seq!['.'],
    };
    assert(dir.len() > 0 && dir.last() != '\\' && dir.last() != '/' && !(dir.len() == 2 && dir[1] == ':')) by {
        match program_data {
            Some(p) => {
                assert(dir.last() == 'y');
                assert(dir.len() >= 10);
            },
            None => {},
        }
    }
    let path = config_path_of(program_data);
    assert(path =~= dir + seq!['\\'] + n);
    assert(forall|j: int| 0 <= j < n.len() ==> !is_sep(#[trigger] n[j]));
    assert(trim_seps_end(path) == path);
    lemma_last_sep_before_name(dir, n);
    assert(path.skip(dir.len() + 1int) =~= n);
    assert(final_component(path) == n);
    assert(n != dot() && n != dotdot() && n.len() > 0) by {
        assert(n.len() == 9);
    }
}
} // verus!
