//! The saved settings: what a remote host, a remote path and a source
//! directory may be, and how the settings file is read.
use vstd::prelude::*;
use vstd::string::*;
use crate::text::{
    char_is_control, char_is_whitespace, find_char, first_index_of, has_prefix, is_control,
    is_white_space, lemma_first_index_of, lines, split_lines, str_eq, string_of, substring, trim,
    trim_end_ws, trim_start_ws, trim_ws, views, lemma_first_index_unique, strip_cr,
};

verus! {

/// Why a setting was refused.
#[derive(Clone, Debug)]
pub enum ConfigError {
    HostEmpty,
    HostLeadingDash,
    HostWhitespace,
    HostUnsupportedCharacters,
    PathEmpty,
    PathControlCharacters,
    LocalDirMissing(String),
}

/// The text that describes each error.
pub open spec fn error_message(e: ConfigError) -> Seq<char> {
    match e {
        ConfigError::HostEmpty => "remote host cannot be empty"@,
        ConfigError::HostLeadingDash => "remote host cannot start with '-'"@,
        ConfigError::HostWhitespace => "remote host cannot contain whitespace"@,
        ConfigError::HostUnsupportedCharacters => "remote host contains unsupported characters"@,
        ConfigError::PathEmpty => "remote path cannot be empty"@,
        ConfigError::PathControlCharacters => "remote path cannot contain control characters"@,
        ConfigError::LocalDirMissing(d) => "source directory does not exist: "@ + d@,
    }
}

impl ConfigError {
    /// The text of the error, as the user reads it.
    pub fn message(&self) -> (r: String)
        ensures
            r@ == error_message(*self),
    {
        match self {
            ConfigError::HostEmpty => string_of("remote host cannot be empty"),
            ConfigError::HostLeadingDash => string_of("remote host cannot start with '-'"),
            ConfigError::HostWhitespace => string_of("remote host cannot contain whitespace"),
            ConfigError::HostUnsupportedCharacters => string_of(
                "remote host contains unsupported characters",
            ),
            ConfigError::PathEmpty => string_of("remote path cannot be empty"),
            ConfigError::PathControlCharacters => string_of(
                "remote path cannot contain control characters",
            ),
            ConfigError::LocalDirMissing(d) => {
                let mut r = string_of("source directory does not exist: ");
                r.append(d.as_str());
                r
            },
        }
    }
}

/// The settings: where uploads go and where the browser starts.
#[derive(Clone, Debug)]
pub struct AppConfig {
    pub remote_host: String,
    pub remote_path: String,
    pub local_dir: String,
}

/// Settings together with whether the first-run setup has to run.
#[derive(Clone, Debug)]
pub struct LoadedConfig {
    pub config: AppConfig,
    pub needs_init: bool,
}

/// What a settings file holds, before its source directories are checked.
#[derive(Clone, Debug)]
pub struct ParsedConfig {
    pub config: AppConfig,
    /// Each `local_dir` value, expanded, in the order of the file.
    pub local_dirs: Vec<String>,
}

pub open spec fn ssh_scheme() -> Seq<char> {
    seq!['s', 's', 'h', ':', '/', '/']
}

/// The host named by what the user typed: trimmed, and with an `ssh://`
/// scheme and anything from the next `/` on dropped.
pub open spec fn host_candidate(value: Seq<char>) -> Seq<char> {
    let t = trim_ws(value);
    if has_prefix(t, ssh_scheme()) {
        let rest = t.subrange(6, t.len() as int);
        let k = first_index_of(rest, '/');
        if k >= 0 {
            rest.subrange(0, k)
        } else {
            rest
        }
    } else {
        t
    }
}

/// The characters that a host may not hold, as they mean something to a shell
/// (its metacharacters and quotes) or to a path.
pub open spec fn is_blocked_host_char(c: char) -> bool {
    c == '/' || c == '\\' || c == '\'' || c == '"' || c == ';' || c == '|' || c == '&' || c == '`'
        || c == '$' || c == '<' || c == '>' || c == '(' || c == ')'
}

pub open spec fn has_space_or_control(h: Seq<char>) -> bool {
    exists|i: int| 0 <= i < h.len() && (is_white_space(#[trigger] h[i]) || is_control(h[i]))
}

pub open spec fn has_blocked_char(h: Seq<char>) -> bool {
    exists|i: int| 0 <= i < h.len() && is_blocked_host_char(#[trigger] h[i])
}

pub open spec fn has_control(h: Seq<char>) -> bool {
    exists|i: int| 0 <= i < h.len() && is_control(#[trigger] h[i])
}

/// A host that ssh and scp can be given as one argument: not empty, not an
/// option, and free of white space, control and shell characters.
pub open spec fn is_safe_host(h: Seq<char>) -> bool {
    &&& h.len() > 0
    &&& h[0] != '-'
    &&& !has_space_or_control(h)
    &&& !has_blocked_char(h)
}

pub open spec fn spec_sanitize_host(value: Seq<char>) -> Result<Seq<char>, ConfigError> {
    let h = host_candidate(value);
    if h.len() == 0 {
        Err(ConfigError::HostEmpty)
    } else if h[0] == '-' {
        Err(ConfigError::HostLeadingDash)
    } else if has_space_or_control(h) {
        Err(ConfigError::HostWhitespace)
    } else if has_blocked_char(h) {
        Err(ConfigError::HostUnsupportedCharacters)
    } else {
        Ok(h)
    }
}

pub open spec fn spec_sanitize_remote_path(value: Seq<char>) -> Result<Seq<char>, ConfigError> {
    let p = trim_ws(value);
    if p.len() == 0 {
        Err(ConfigError::PathEmpty)
    } else if has_control(p) {
        Err(ConfigError::PathControlCharacters)
    } else {
        Ok(p)
    }
}

/// A `Result` of a `String` taken by its view.
pub open spec fn result_view(r: Result<String, ConfigError>) -> Result<Seq<char>, ConfigError> {
    match r {
        Ok(s) => Ok(s@),
        Err(e) => Err(e),
    }
}

/// `PathBuf::push` on Unix: an absolute `rest` replaces `base`; otherwise one
/// `/` separates them unless `base` is empty or already ends in one.
pub open spec fn path_join(base: Seq<char>, rest: Seq<char>) -> Seq<char> {
    if rest.len() > 0 && rest[0] == '/' {
        rest
    } else if base.len() == 0 || base.last() == '/' {
        base + rest
    } else {
        base + seq!['/'] + rest
    }
}

/// A leading `~` taken as the home directory, where it is known.
pub open spec fn spec_expand_home(value: Seq<char>, home: Option<Seq<char>>) -> Seq<char> {
    if value == seq!['~'] {
        match home {
            Some(h) => h,
            None => value,
        }
    } else if has_prefix(value, seq!['~', '/']) {
        match home {
            Some(h) => path_join(h, value.subrange(2, value.len() as int)),
            None => value,
        }
    } else {
        value
    }
}

pub open spec fn opt_view(o: Option<&str>) -> Option<Seq<char>> {
    match o {
        Some(s) => Some(s@),
        None => None,
    }
}

/// The directory that a typed source directory names.
pub open spec fn spec_local_dir_candidate(value: Seq<char>, home: Option<Seq<char>>) -> Seq<char> {
    spec_expand_home(trim_ws(value), home)
}

fn blocked_host_char(c: char) -> (b: bool)
    ensures
        b == is_blocked_host_char(c),
{
    c == '/' || c == '\\' || c == '\'' || c == '"' || c == ';' || c == '|' || c == '&' || c == '`'
        || c == '$' || c == '<' || c == '>' || c == '(' || c == ')'
}

/// Normalizes and checks a remote host before it reaches ssh or scp.
pub fn sanitize_host(value: &str) -> (r: Result<String, ConfigError>)
    ensures
        result_view(r) == spec_sanitize_host(value@),
{
    let t = trim(value);
    let scheme = "ssh://";
    proof {
        reveal_strlit("ssh://");
        assert(scheme@ =~= ssh_scheme());
    }
    let host = if crate::text::starts_with(t.as_str(), scheme) {
        let n = t.as_str().unicode_len();
        let rest = substring(t.as_str(), 6, n);
        match find_char(rest.as_str(), '/') {
            Some(k) => {
                proof {
                    lemma_first_index_of(rest@, '/');
                }
                substring(rest.as_str(), 0, k)
            },
            None => rest,
        }
    } else {
        t
    };
    assert(host@ == host_candidate(value@));
    let n = host.as_str().unicode_len();
    if n == 0 {
        return Err(ConfigError::HostEmpty);
    }
    if host.as_str().get_char(0) == '-' {
        return Err(ConfigError::HostLeadingDash);
    }
    let mut i: usize = 0;
    while i < n
        invariant
            n == host@.len(),
            host@ == host_candidate(value@),
            host@[0] != '-',
            i <= n,
            forall|k: int| 0 <= k < i ==> !is_white_space(host@[k]) && !is_control(host@[k]),
        decreases n - i,
    {
        let c = host.as_str().get_char(i);
        if char_is_whitespace(c) || char_is_control(c) {
            assert(is_white_space(host@[i as int]) || is_control(host@[i as int]));
            assert(has_space_or_control(host@));
            return Err(ConfigError::HostWhitespace);
        }
        i = i + 1;
    }
    assert(!has_space_or_control(host@));
    let mut j: usize = 0;
    while j < n
        invariant
            n == host@.len(),
            host@ == host_candidate(value@),
            host@[0] != '-',
            !has_space_or_control(host@),
            j <= n,
            forall|k: int| 0 <= k < j ==> !is_blocked_host_char(host@[k]),
        decreases n - j,
    {
        if blocked_host_char(host.as_str().get_char(j)) {
            assert(is_blocked_host_char(host@[j as int]));
            assert(has_blocked_char(host@));
            return Err(ConfigError::HostUnsupportedCharacters);
        }
        j = j + 1;
    }
    assert(!has_blocked_char(host@));
    Ok(host)
}

/// Trims and checks a remote path.
pub fn sanitize_remote_path(value: &str) -> (r: Result<String, ConfigError>)
    ensures
        result_view(r) == spec_sanitize_remote_path(value@),
{
    let p = trim(value);
    let n = p.as_str().unicode_len();
    if n == 0 {
        return Err(ConfigError::PathEmpty);
    }
    let mut i: usize = 0;
    while i < n
        invariant
            n == p@.len(),
            p@ == trim_ws(value@),
            i <= n,
            forall|k: int| 0 <= k < i ==> !is_control(p@[k]),
        decreases n - i,
    {
        if char_is_control(p.as_str().get_char(i)) {
            assert(is_control(p@[i as int]));
            assert(has_control(p@));
            return Err(ConfigError::PathControlCharacters);
        }
        i = i + 1;
    }
    assert(!has_control(p@));
    Ok(p)
}

/// `PathBuf::from(base).join(rest)` on Unix.
pub fn join_path(base: &str, rest: &str) -> (r: String)
    ensures
        r@ == path_join(base@, rest@),
{
    if rest.unicode_len() > 0 && rest.get_char(0) == '/' {
        return string_of(rest);
    }
    let n = base.unicode_len();
    let mut r = string_of(base);
    if n > 0 && base.get_char(n - 1) != '/' {
        crate::text::push_char(&mut r, '/');
    }
    r.append(rest);
    r
}

/// Expands a leading `~` to the home directory, where one is known.
pub fn expand_home(value: &str, home: Option<&str>) -> (r: String)
    ensures
        r@ == spec_expand_home(value@, opt_view(home)),
{
    let n = value.unicode_len();
    if n == 1 && value.get_char(0) == '~' {
        assert(value@ =~= seq!['~']);
        return match home {
            Some(h) => string_of(h),
            None => string_of(value),
        };
    }
    proof {
        if value@ == seq!['~'] {
            assert(value@[0] == '~');
        }
    }
    if n >= 2 && value.get_char(0) == '~' && value.get_char(1) == '/' {
        assert(value@.subrange(0, 2) =~= seq!['~', '/']);
        match home {
            Some(h) => {
                let rest = substring(value, 2, n);
                join_path(h, rest.as_str())
            },
            None => string_of(value),
        }
    } else {
        proof {
            if has_prefix(value@, seq!['~', '/']) {
                assert(value@[0] == value@.subrange(0, 2)[0]);
                assert(value@[1] == value@.subrange(0, 2)[1]);
            }
        }
        string_of(value)
    }
}

/// The directory that a typed source directory names; whether it exists is
/// for the caller to find out.
pub fn local_dir_candidate(value: &str, home: Option<&str>) -> (r: String)
    ensures
        r@ == spec_local_dir_candidate(value@, opt_view(home)),
{
    let t = trim(value);
    expand_home(t.as_str(), home)
}

/// Accepts a typed source directory when the directory it names exists;
/// `is_dir` says whether `local_dir_candidate(value, home)` is a directory.
pub fn sanitize_local_dir(value: &str, home: Option<&str>, is_dir: bool) -> (r: Result<
    String,
    ConfigError,
>)
    ensures
        is_dir ==> (r matches Ok(d) && d@ == spec_local_dir_candidate(value@, opt_view(home))),
        !is_dir ==> (r matches Err(ConfigError::LocalDirMissing(d)) && d@
            == spec_local_dir_candidate(value@, opt_view(home))),
{
    let dir = local_dir_candidate(value, home);
    if is_dir {
        Ok(dir)
    } else {
        Err(ConfigError::LocalDirMissing(dir))
    }
}

impl AppConfig {
    /// The settings before any are saved: no host, the remote home directory,
    /// and the given source directory.
    pub fn defaults(local_dir: String) -> (r: AppConfig)
        ensures
            r.remote_host@ == Seq::<char>::empty(),
            r.remote_path@ == seq!['~'],
            r.local_dir == local_dir,
    {
        let remote_path = string_of("~");
        proof {
            reveal_strlit("~");
        }
        AppConfig { remote_host: String::new(), remote_path, local_dir }
    }
}

/// The settings to start with: the stored ones where they could be read,
/// the defaults and a first-run setup otherwise.
pub fn load(force_init: bool, stored: Option<AppConfig>, defaults: AppConfig) -> (r: LoadedConfig)
    ensures
        stored matches Some(c) ==> r.config == c && r.needs_init == force_init,
        stored is None ==> r.config == defaults && r.needs_init,
{
    match stored {
        Some(config) => LoadedConfig { config, needs_init: force_init },
        None => LoadedConfig { config: defaults, needs_init: true },
    }
}

/// The settings as plain values.
pub struct ConfigState {
    pub remote_host: Seq<char>,
    pub remote_path: Seq<char>,
    pub local_dir: Seq<char>,
    pub local_dirs: Seq<Seq<char>>,
}

/// One line of a settings file applied: `key=value`, the key trimmed; the
/// three known keys are checked as when typed, other lines are skipped.
pub open spec fn apply_config_line(s: ConfigState, line: Seq<char>, home: Option<Seq<char>>) -> Result<
    ConfigState,
    ConfigError,
> {
    let k = first_index_of(line, '=');
    if k < 0 {
        Ok(s)
    } else {
        let key = trim_ws(line.subrange(0, k));
        let value = line.subrange(k + 1, line.len() as int);
        if key == "remote_host"@ {
            match spec_sanitize_host(value) {
                Ok(h) => Ok(ConfigState { remote_host: h, ..s }),
                Err(e) => Err(e),
            }
        } else if key == "remote_path"@ {
            match spec_sanitize_remote_path(value) {
                Ok(p) => Ok(ConfigState { remote_path: p, ..s }),
                Err(e) => Err(e),
            }
        } else if key == "local_dir"@ {
            let d = spec_local_dir_candidate(value, home);
            Ok(ConfigState { local_dir: d, local_dirs: s.local_dirs.push(d), ..s })
        } else {
            Ok(s)
        }
    }
}

/// Each line applied in turn, the first refused one ending the reading.
pub open spec fn apply_config_lines(
    s: ConfigState,
    lines: Seq<Seq<char>>,
    home: Option<Seq<char>>,
) -> Result<ConfigState, ConfigError>
    decreases lines.len(),
{
    if lines.len() == 0 {
        Ok(s)
    } else {
        match apply_config_line(s, lines[0], home) {
            Ok(next) => apply_config_lines(next, lines.drop_first(), home),
            Err(e) => Err(e),
        }
    }
}

pub open spec fn parsed_state(p: ParsedConfig) -> ConfigState {
    ConfigState {
        remote_host: p.config.remote_host@,
        remote_path: p.config.remote_path@,
        local_dir: p.config.local_dir@,
        local_dirs: views(p.local_dirs@),
    }
}

pub open spec fn config_state(c: AppConfig) -> ConfigState {
    ConfigState {
        remote_host: c.remote_host@,
        remote_path: c.remote_path@,
        local_dir: c.local_dir@,
        local_dirs: Seq::empty(),
    }
}

proof fn lemma_apply_lines_step(s: ConfigState, ls: Seq<Seq<char>>, i: int, home: Option<Seq<char>>)
    requires
        0 <= i < ls.len(),
    ensures
        apply_config_lines(s, ls.subrange(i, ls.len() as int), home) == (match apply_config_line(
            s,
            ls[i],
            home,
        ) {
            Ok(next) => apply_config_lines(next, ls.subrange(i + 1, ls.len() as int), home),
            Err(e) => Err(e),
        }),
{
    let t = ls.subrange(i, ls.len() as int);
    assert(t[0] == ls[i]);
    assert(t.drop_first() =~= ls.subrange(i + 1, ls.len() as int));
}

/// Reads a settings file: starting from `defaults`, each `key=value` line of a
/// known key is checked and applied; the first refused line refuses the file.
/// Each `local_dir` value is expanded and listed, for the caller to check.
pub fn parse_config(content: &str, defaults: AppConfig, home: Option<&str>) -> (r: Result<
    ParsedConfig,
    ConfigError,
>)
    ensures
        match r {
            Ok(p) => apply_config_lines(config_state(defaults), split_lines(content@), opt_view(home))
                == Ok::<ConfigState, ConfigError>(parsed_state(p)),
            Err(e) => apply_config_lines(config_state(defaults), split_lines(content@), opt_view(home))
                == Err::<ConfigState, ConfigError>(e),
        },
{
    let ls = lines(content);
    let ghost lv = views(ls@);
    let mut config = defaults;
    let mut dirs: Vec<String> = Vec::new();
    let mut i: usize = 0;
    proof {
        assert(lv.subrange(0, lv.len() as int) =~= lv);
        assert(views(dirs@) =~= Seq::<Seq<char>>::empty());
    }
    while i < ls.len()
        invariant
            lv == views(ls@),
            lv == split_lines(content@),
            i <= ls.len(),
            apply_config_lines(config_state(defaults), lv, opt_view(home)) == apply_config_lines(
                parsed_state(ParsedConfig { config, local_dirs: dirs }),
                lv.subrange(i as int, lv.len() as int),
                opt_view(home),
            ),
        decreases ls.len() - i,
    {
        let line = ls[i].as_str();
        let ghost before = parsed_state(ParsedConfig { config, local_dirs: dirs });
        proof {
            lemma_apply_lines_step(before, lv, i as int, opt_view(home));
            assert(lv[i as int] == line@);
        }
        match find_char(line, '=') {
            None => {},
            Some(k) => {
                let n = line.unicode_len();
                let key_part = substring(line, 0, k);
                let key = trim(key_part.as_str());
                let value = substring(line, k + 1, n);
                let remote_host_key = "remote_host";
                let remote_path_key = "remote_path";
                let local_dir_key = "local_dir";
                if str_eq(key.as_str(), remote_host_key) {
                    match sanitize_host(value.as_str()) {
                        Ok(h) => {
                            config.remote_host = h;
                        },
                        Err(e) => {
                            return Err(e);
                        },
                    }
                } else if str_eq(key.as_str(), remote_path_key) {
                    match sanitize_remote_path(value.as_str()) {
                        Ok(p) => {
                            config.remote_path = p;
                        },
                        Err(e) => {
                            return Err(e);
                        },
                    }
                } else if str_eq(key.as_str(), local_dir_key) {
                    let d = local_dir_candidate(value.as_str(), home);
                    let d2 = d.clone();
                    let ghost old_dirs = dirs@;
                    dirs.push(d2);
                    proof {
                        assert(views(dirs@) =~= views(old_dirs).push(d@));
                    }
                    config.local_dir = d;
                }
            },
        }
        let ghost after = parsed_state(ParsedConfig { config, local_dirs: dirs });
        assert(apply_config_line(before, lv[i as int], opt_view(home)) == Ok::<
            ConfigState,
            ConfigError,
        >(after));
        i = i + 1;
    }
    assert(lv.subrange(i as int, lv.len() as int) =~= Seq::<Seq<char>>::empty());
    Ok(ParsedConfig { config, local_dirs: dirs })
}

/// The settings read from a file, kept only when every source directory it
/// names exists; `dirs_exist[i]` says whether `parsed.local_dirs[i]` does.
pub fn stored_config(parsed: Result<ParsedConfig, ConfigError>, dirs_exist: &Vec<bool>) -> (r:
    Option<AppConfig>)
    ensures
        r is Some <==> (parsed is Ok && dirs_exist@.len() == parsed->Ok_0.local_dirs@.len()
            && forall|i: int| 0 <= i < dirs_exist@.len() ==> dirs_exist@[i]),
        r matches Some(c) ==> c == parsed->Ok_0.config,
{
    match parsed {
        Err(_) => None,
        Ok(p) => {
            if dirs_exist.len() != p.local_dirs.len() {
                return None;
            }
            let mut i: usize = 0;
            while i < dirs_exist.len()
                invariant
                    i <= dirs_exist@.len(),
                    forall|k: int| 0 <= k < i ==> dirs_exist@[k],
                decreases dirs_exist.len() - i,
            {
                if !dirs_exist[i] {
                    return None;
                }
                i = i + 1;
            }
            Some(p.config)
        },
    }
}

/// A safe host is its own sanitized form, and sanitizing yields only safe
/// hosts: what reaches ssh is fixed by one pass.
pub proof fn law_sanitize_host_idempotent(value: Seq<char>)
    ensures
        spec_sanitize_host(value) matches Ok(h) ==> is_safe_host(h) && spec_sanitize_host(h)
            == Ok::<Seq<char>, ConfigError>(h),
{
    if let Ok(h) = spec_sanitize_host(value) {
        lemma_safe_host_fixed(h);
    }
}

proof fn lemma_trim_start_id(h: Seq<char>)
    requires
        h.len() > 0 ==> !is_white_space(h[0]),
    ensures
        trim_start_ws(h) == h,
{
}

proof fn lemma_trim_end_id(h: Seq<char>)
    requires
        h.len() > 0 ==> !is_white_space(h.last()),
    ensures
        trim_end_ws(h) == h,
{
}

/// A safe host sanitizes to itself.
pub proof fn lemma_safe_host_fixed(h: Seq<char>)
    requires
        is_safe_host(h),
    ensures
        spec_sanitize_host(h) == Ok::<Seq<char>, ConfigError>(h),
{
    assert(!is_white_space(h[0]));
    assert(!is_white_space(h[h.len() - 1]));
    lemma_trim_start_id(h);
    lemma_trim_end_id(h);
    assert(trim_ws(h) == h);
    if has_prefix(h, ssh_scheme()) {
        assert(h[4] == h.subrange(0, 6)[4]);
        assert(is_blocked_host_char(h[4]));
    }
    assert(host_candidate(h) == h);
}

proof fn lemma_trim_start_front(s: Seq<char>)
    ensures
        trim_start_ws(s).len() > 0 ==> !is_white_space(trim_start_ws(s)[0]),
        exists|k: int| 0 <= k <= s.len() && trim_start_ws(s) == s.subrange(k, s.len() as int),
    decreases s.len(),
{
    if s.len() > 0 && is_white_space(s[0]) {
        lemma_trim_start_front(s.drop_first());
        let k = choose|k: int|
            0 <= k <= s.drop_first().len() && trim_start_ws(s.drop_first()) == s.drop_first().subrange(
                k,
                s.drop_first().len() as int,
            );
        assert(s.drop_first().subrange(k, s.drop_first().len() as int) =~= s.subrange(
            k + 1,
            s.len() as int,
        ));
    } else {
        assert(s.subrange(0, s.len() as int) =~= s);
    }
}

proof fn lemma_trim_end_back(s: Seq<char>)
    ensures
        trim_end_ws(s).len() > 0 ==> !is_white_space(trim_end_ws(s).last()),
        exists|k: int| 0 <= k <= s.len() && trim_end_ws(s) == s.subrange(0, k),
    decreases s.len(),
{
    if s.len() > 0 && is_white_space(s.last()) {
        lemma_trim_end_back(s.drop_last());
        let k = choose|k: int|
            0 <= k <= s.drop_last().len() && trim_end_ws(s.drop_last()) == s.drop_last().subrange(
                0,
                k,
            );
        assert(s.drop_last().subrange(0, k) =~= s.subrange(0, k));
    } else {
        assert(s.subrange(0, s.len() as int) =~= s);
    }
}

/// Trimmed text has nothing left to trim.
pub proof fn lemma_trim_idempotent(v: Seq<char>)
    ensures
        trim_ws(trim_ws(v)) == trim_ws(v),
{
    let a = trim_start_ws(v);
    let t = trim_end_ws(a);
    lemma_trim_start_front(v);
    lemma_trim_end_back(a);
    if t.len() > 0 {
        let k = choose|k: int| 0 <= k <= a.len() && t == a.subrange(0, k);
        assert(t[0] == a[0]);
        lemma_trim_start_id(t);
        lemma_trim_end_id(t);
    }
}

/// A checked remote path is its own checked form.
pub proof fn law_sanitize_remote_path_idempotent(value: Seq<char>)
    ensures
        spec_sanitize_remote_path(value) matches Ok(p) ==> spec_sanitize_remote_path(p) == Ok::<
            Seq<char>,
            ConfigError,
        >(p),
{
    lemma_trim_idempotent(value);
}

/// The text of a settings file: one `key=value` line per setting.
pub open spec fn spec_config_text(c: AppConfig) -> Seq<char> {
    "remote_host="@ + c.remote_host@ + "\n"@ + "remote_path="@ + c.remote_path@ + "\n"@
        + "local_dir="@ + c.local_dir@ + "\n"@
}

/// The text that saving the settings writes.
pub fn config_text(config: &AppConfig) -> (r: String)
    ensures
        r@ == spec_config_text(*config),
{
    let mut r = string_of("remote_host=");
    r.append(config.remote_host.as_str());
    r.append("\n");
    r.append("remote_path=");
    r.append(config.remote_path.as_str());
    r.append("\n");
    r.append("local_dir=");
    r.append(config.local_dir.as_str());
    r.append("\n");
    r
}

proof fn lemma_split_first_line(x: Seq<char>, rest: Seq<char>)
    requires
        !x.contains('\n'),
    ensures
        split_lines(x + seq!['\n'] + rest) == seq![strip_cr(x)] + split_lines(rest),
{
    let t = x + seq!['\n'] + rest;
    assert forall|j: int| 0 <= j < x.len() implies t[j] != '\n' by {
        assert(t[j] == x[j]);
    }
    assert(t[x.len() as int] == '\n');
    lemma_first_index_unique(t, '\n', x.len() as int);
    assert(t.subrange(0, x.len() as int) =~= x);
    assert(t.subrange(x.len() as int + 1, t.len() as int) =~= rest);
}

proof fn lemma_key_value(key: Seq<char>, v: Seq<char>)
    requires
        !key.contains('='),
    ensures
        first_index_of(key + seq!['='] + v, '=') == key.len(),
        (key + seq!['='] + v).subrange(0, key.len() as int) == key,
        (key + seq!['='] + v).subrange(key.len() as int + 1, (key + seq!['='] + v).len() as int) == v,
{
    let t = key + seq!['='] + v;
    assert forall|j: int| 0 <= j < key.len() implies t[j] != '=' by {
        assert(t[j] == key[j]);
    }
    assert(t[key.len() as int] == '=');
    lemma_first_index_unique(t, '=', key.len() as int);
    assert(t.subrange(0, key.len() as int) =~= key);
    assert(t.subrange(key.len() as int + 1, t.len() as int) =~= v);
}

proof fn lemma_setting_line(key: Seq<char>, v: Seq<char>)
    requires
        key.len() > 0,
        !key.contains('\n'),
        !v.contains('\n'),
        v.len() > 0 ==> v.last() != '\r',
        key.last() != '\r',
    ensures
        !(key + seq!['='] + v).contains('\n'),
        strip_cr(key + seq!['='] + v) == key + seq!['='] + v,
{
    let l = key + seq!['='] + v;
    if l.contains('\n') {
        let j = choose|j: int| 0 <= j < l.len() && l[j] == '\n';
        if j < key.len() {
            assert(key[j] == '\n');
        } else if j > key.len() {
            assert(v[j - key.len() - 1] == '\n');
        }
    }
    if v.len() > 0 {
        assert(l.last() == v.last());
    } else {
        assert(l.last() == '=');
    }
}

proof fn lemma_split_three(l1: Seq<char>, l2: Seq<char>, l3: Seq<char>)
    requires
        !l1.contains('\n'),
        !l2.contains('\n'),
        !l3.contains('\n'),
        strip_cr(l1) == l1,
        strip_cr(l2) == l2,
        strip_cr(l3) == l3,
    ensures
        split_lines(l1 + seq!['\n'] + (l2 + seq!['\n'] + (l3 + seq!['\n']))) == seq![l1, l2, l3],
{
    let t3 = l3 + seq!['\n'];
    let t2 = l2 + seq!['\n'] + t3;
    lemma_split_first_line(l1, t2);
    lemma_split_first_line(l2, t3);
    lemma_split_first_line(l3, Seq::<char>::empty());
    assert(t3 =~= l3 + seq!['\n'] + Seq::<char>::empty());
    assert(split_lines(Seq::<char>::empty()) =~= Seq::<Seq<char>>::empty());
    assert(split_lines(t3) =~= seq![l3]);
    assert(split_lines(t2) =~= seq![l2, l3]);
}

proof fn lemma_plain_key(key: Seq<char>)
    requires
        key.len() > 0,
        forall|i: int| 0 <= i < key.len() ==> 'a' <= #[trigger] key[i] <= 'z' || key[i] == '_',
    ensures
        trim_ws(key) == key,
        !key.contains('='),
        !key.contains('\n'),
        key.last() != '\r',
{
    assert(!is_white_space(key[0]));
    assert(!is_white_space(key[key.len() - 1]));
    lemma_trim_start_id(key);
    lemma_trim_end_id(key);
    assert(key.last() == key[key.len() - 1]);
}

proof fn lemma_apply_host(s: ConfigState, h: Seq<char>, home: Option<Seq<char>>)
    requires
        spec_sanitize_host(h) == Ok::<Seq<char>, ConfigError>(h),
    ensures
        apply_config_line(s, "remote_host"@ + seq!['='] + h, home) == Ok::<ConfigState, ConfigError>(
            ConfigState { remote_host: h, ..s },
        ),
{
    reveal_strlit("remote_host");
    let k = "remote_host"@;
    lemma_plain_key(k);
    lemma_key_value(k, h);
}

proof fn lemma_apply_path(s: ConfigState, p: Seq<char>, home: Option<Seq<char>>)
    requires
        spec_sanitize_remote_path(p) == Ok::<Seq<char>, ConfigError>(p),
    ensures
        apply_config_line(s, "remote_path"@ + seq!['='] + p, home) == Ok::<ConfigState, ConfigError>(
            ConfigState { remote_path: p, ..s },
        ),
{
    reveal_strlit("remote_host");
    reveal_strlit("remote_path");
    let k = "remote_path"@;
    lemma_plain_key(k);
    lemma_key_value(k, p);
    assert(k != "remote_host"@) by {
        assert(k[7] != "remote_host"@[7]);
    }
}

proof fn lemma_apply_dir(s: ConfigState, d: Seq<char>, home: Option<Seq<char>>)
    requires
        spec_local_dir_candidate(d, home) == d,
    ensures
        apply_config_line(s, "local_dir"@ + seq!['='] + d, home) == Ok::<ConfigState, ConfigError>(
            ConfigState { local_dir: d, local_dirs: s.local_dirs.push(d), ..s },
        ),
{
    reveal_strlit("remote_host");
    reveal_strlit("remote_path");
    reveal_strlit("local_dir");
    let k = "local_dir"@;
    lemma_plain_key(k);
    lemma_key_value(k, d);
    assert(k.len() != "remote_host"@.len());
    assert(k.len() != "remote_path"@.len());
}

/// A host that sanitizes to itself, and a remote path that is checked as
/// itself, hold no line break and do not end in a carriage return.
proof fn lemma_checked_values(h: Seq<char>, p: Seq<char>)
    requires
        spec_sanitize_host(h) == Ok::<Seq<char>, ConfigError>(h),
        spec_sanitize_remote_path(p) == Ok::<Seq<char>, ConfigError>(p),
    ensures
        h.len() > 0,
        !h.contains('\n'),
        h.last() != '\r',
        !p.contains('\n'),
        p.len() > 0 ==> p.last() != '\r',
{
    if h.contains('\n') {
        let j = choose|j: int| 0 <= j < h.len() && h[j] == '\n';
        assert(is_control(h[j]));
    }
    assert(!is_control(h[h.len() - 1]));
    if p.contains('\n') {
        let j = choose|j: int| 0 <= j < p.len() && p[j] == '\n';
        assert(is_control(p[j]));
    }
    if p.len() > 0 {
        assert(!is_control(p[p.len() - 1]));
    }
}

proof fn lemma_config_text_lines(c: AppConfig)
    requires
        spec_sanitize_host(c.remote_host@) == Ok::<Seq<char>, ConfigError>(c.remote_host@),
        spec_sanitize_remote_path(c.remote_path@) == Ok::<Seq<char>, ConfigError>(c.remote_path@),
        !c.local_dir@.contains('\n'),
        c.local_dir@.len() > 0 ==> c.local_dir@.last() != '\r',
    ensures
        split_lines(spec_config_text(c)) == seq![
            "remote_host"@ + seq!['='] + c.remote_host@,
            "remote_path"@ + seq!['='] + c.remote_path@,
            "local_dir"@ + seq!['='] + c.local_dir@,
        ],
{
    reveal_strlit("remote_host=");
    reveal_strlit("remote_path=");
    reveal_strlit("local_dir=");
    reveal_strlit("remote_host");
    reveal_strlit("remote_path");
    reveal_strlit("local_dir");
    reveal_strlit("\n");
    let h = c.remote_host@;
    let p = c.remote_path@;
    let d = c.local_dir@;
    let kh = "remote_host"@;
    let kp = "remote_path"@;
    let kd = "local_dir"@;
    lemma_plain_key(kh);
    lemma_plain_key(kp);
    lemma_plain_key(kd);
    lemma_checked_values(h, p);
    let l1 = kh + seq!['='] + h;
    let l2 = kp + seq!['='] + p;
    let l3 = kd + seq!['='] + d;
    lemma_setting_line(kh, h);
    lemma_setting_line(kp, p);
    lemma_setting_line(kd, d);
    assert(spec_config_text(c) =~= l1 + seq!['\n'] + (l2 + seq!['\n'] + (l3 + seq!['\n'])));
    lemma_split_three(l1, l2, l3);
}

proof fn lemma_apply_three(
    s0: ConfigState,
    l1: Seq<char>,
    l2: Seq<char>,
    l3: Seq<char>,
    s1: ConfigState,
    s2: ConfigState,
    s3: ConfigState,
    home: Option<Seq<char>>,
)
    requires
        apply_config_line(s0, l1, home) == Ok::<ConfigState, ConfigError>(s1),
        apply_config_line(s1, l2, home) == Ok::<ConfigState, ConfigError>(s2),
        apply_config_line(s2, l3, home) == Ok::<ConfigState, ConfigError>(s3),
    ensures
        apply_config_lines(s0, seq![l1, l2, l3], home) == Ok::<ConfigState, ConfigError>(s3),
{
    let ls = seq![l1, l2, l3];
    assert(ls.drop_first() =~= seq![l2, l3]);
    assert(seq![l2, l3].drop_first() =~= seq![l3]);
    assert(seq![l3].drop_first() =~= Seq::<Seq<char>>::empty());
    assert(apply_config_lines(s3, Seq::<Seq<char>>::empty(), home) == Ok::<ConfigState, ConfigError>(s3));
    assert(apply_config_lines(s2, seq![l3], home) == Ok::<ConfigState, ConfigError>(s3));
    assert(apply_config_lines(s1, seq![l2, l3], home) == Ok::<ConfigState, ConfigError>(s3));
}

/// Saved settings read back as they were: a settings file written from a
/// host and a remote path that are accepted as they stand, and a source
/// directory that names itself and holds no line break, gives those three
/// values back when it is read, whatever the defaults.
pub proof fn law_config_text_round_trip(c: AppConfig, defaults: AppConfig, home: Option<Seq<char>>)
    requires
        spec_sanitize_host(c.remote_host@) == Ok::<Seq<char>, ConfigError>(c.remote_host@),
        spec_sanitize_remote_path(c.remote_path@) == Ok::<Seq<char>, ConfigError>(c.remote_path@),
        spec_local_dir_candidate(c.local_dir@, home) == c.local_dir@,
        !c.local_dir@.contains('\n'),
        c.local_dir@.len() > 0 ==> c.local_dir@.last() != '\r',
    ensures
        apply_config_lines(config_state(defaults), split_lines(spec_config_text(c)), home) == Ok::<
            ConfigState,
            ConfigError,
        >(
            ConfigState {
                remote_host: c.remote_host@,
                remote_path: c.remote_path@,
                local_dir: c.local_dir@,
                local_dirs: seq![c.local_dir@],
            },
        ),
{
    let h = c.remote_host@;
    let p = c.remote_path@;
    let d = c.local_dir@;
    lemma_config_text_lines(c);
    let s0 = config_state(defaults);
    let s1 = ConfigState { remote_host: h, ..s0 };
    let s2 = ConfigState { remote_path: p, ..s1 };
    let s3 = ConfigState { local_dir: d, local_dirs: s2.local_dirs.push(d), ..s2 };
    lemma_apply_host(s0, h, home);
    lemma_apply_path(s1, p, home);
    lemma_apply_dir(s2, d, home);
    lemma_apply_three(
        s0,
        "remote_host"@ + seq!['='] + h,
        "remote_path"@ + seq!['='] + p,
        "local_dir"@ + seq!['='] + d,
        s1,
        s2,
        s3,
        home,
    );
    assert(s3.local_dirs =~= seq![d]);
}

/// A character of an ordinary ssh destination: an ASCII letter or digit,
/// or one of `@ . - _ :`.
pub open spec fn is_plain_host_char(c: char) -> bool {
    ||| ('a' <= c && c <= 'z')
    ||| ('A' <= c && c <= 'Z')
    ||| ('0' <= c && c <= '9')
    ||| c == '@'
    ||| c == '.'
    ||| c == '-'
    ||| c == '_'
    ||| c == ':'
}

/// Ordinary hosts are taken as typed: a host name, an IP address or a
/// `user@host` made of letters, digits and `@ . - _ :`, not starting with
/// `-`, is safe and sanitizes to itself, also with white space around it.
pub proof fn law_plain_hosts_accepted(value: Seq<char>, h: Seq<char>)
    requires
        trim_ws(value) == h,
        h.len() > 0,
        h[0] != '-',
        forall|i: int| 0 <= i < h.len() ==> is_plain_host_char(#[trigger] h[i]),
    ensures
        is_safe_host(h),
        spec_sanitize_host(value) == Ok::<Seq<char>, ConfigError>(h),
{
    assert forall|i: int| 0 <= i < h.len() implies !is_white_space(#[trigger] h[i]) && !is_control(
        h[i],
    ) && !is_blocked_host_char(h[i]) by {
        assert(is_plain_host_char(h[i]));
    }
    assert(!has_space_or_control(h));
    assert(!has_blocked_char(h));
    if has_prefix(h, ssh_scheme()) {
        assert(h[4] == h.subrange(0, 6)[4]);
        assert(!is_blocked_host_char(h[4]));
    }
    assert(host_candidate(value) == h);
}

/// Where the settings file lives: under `$XDG_CONFIG_HOME/transit`, else
/// under `$HOME/.config/transit`, else `.transit-config`.
pub open spec fn spec_config_path(xdg: Option<Seq<char>>, home: Option<Seq<char>>) -> Seq<char> {
    match xdg {
        Some(x) => path_join(path_join(x, "transit"@), "config"@),
        None => match home {
            Some(h) => path_join(path_join(path_join(h, ".config"@), "transit"@), "config"@),
            None => ".transit-config"@,
        },
    }
}

/// The settings file's path from `XDG_CONFIG_HOME` and `HOME`, where set.
pub fn config_path_from(xdg: Option<&str>, home: Option<&str>) -> (r: String)
    ensures
        r@ == spec_config_path(opt_view(xdg), opt_view(home)),
{
    match xdg {
        Some(x) => {
            let a = join_path(x, "transit");
            join_path(a.as_str(), "config")
        },
        None => match home {
            Some(h) => {
                let a = join_path(h, ".config");
                let b = join_path(a.as_str(), "transit");
                join_path(b.as_str(), "config")
            },
            None => string_of(".transit-config"),
        },
    }
}

/// The `Downloads` directory under a home directory.
pub fn downloads_dir(home: &str) -> (r: String)
    ensures
        r@ == path_join(home@, "Downloads"@),
{
    join_path(home, "Downloads")
}

/// The source directory to start from: `Downloads` under the home directory
/// where that is a directory, else the current directory, else `.`;
/// `downloads_is_dir` says whether `downloads_dir(home)` is a directory.
pub open spec fn spec_default_local_dir(
    home: Option<Seq<char>>,
    downloads_is_dir: bool,
    current: Option<Seq<char>>,
) -> Seq<char> {
    let fallback = match current {
        Some(c) => c,
        None => "."@,
    };
    match home {
        Some(h) => if downloads_is_dir {
            path_join(h, "Downloads"@)
        } else {
            fallback
        },
        None => fallback,
    }
}

/// The default source directory from what the environment says.
pub fn default_local_dir_from(home: Option<&str>, downloads_is_dir: bool, current: Option<&str>) -> (r:
    String)
    ensures
        r@ == spec_default_local_dir(opt_view(home), downloads_is_dir, opt_view(current)),
{
    let fallback = match current {
        Some(c) => string_of(c),
        None => string_of("."),
    };
    match home {
        Some(h) => if downloads_is_dir {
            downloads_dir(h)
        } else {
            fallback
        },
        None => fallback,
    }
}

} // verus!
