//! POSIX paths on the remote side and the shell text sent through ssh.
use vstd::prelude::*;
use vstd::string::*;
use crate::order::{SortKey, is_stable_order, keys_view, permuted, stable_order};
use crate::paths::{lowercase, to_lowercase};
use crate::text::{
    lines, split_lines, trim, trim_ws, views, ends_with_char, has_prefix, last_index_of, lemma_last_index_of, push_char, rfind_char,
    string_of, substring, trim_end_char, trim_end_matches,
};

verus! {

/// `parent` and `child` joined by one `/`, trailing slashes of `parent` dropped.
pub open spec fn spec_join_posix(parent: Seq<char>, child: Seq<char>) -> Seq<char> {
    let p = trim_end_char(parent, '/');
    if p.len() == 0 {
        seq!['/'] + child
    } else {
        p + seq!['/'] + child
    }
}

/// The directory above `path`: `/` at the root or above a top-level entry,
/// `.` for a single relative component.
pub open spec fn spec_parent_path(path: Seq<char>) -> Seq<char> {
    let t = trim_end_char(path, '/');
    let k = last_index_of(t, '/');
    if t.len() == 0 {
        seq!['/']
    } else if k < 0 {
        seq!['.']
    } else if k == 0 {
        seq!['/']
    } else {
        t.subrange(0, k)
    }
}

/// `path` with a `/` at its end, added only if it is missing.
pub open spec fn spec_ensure_trailing_slash(path: Seq<char>) -> Seq<char> {
    if path.len() > 0 && path.last() == '/' {
        path
    } else {
        path.push('/')
    }
}

/// How one character stands inside single quotes: a quote closes the
/// quoted run, is written escaped, and opens a new run.
pub open spec fn quote_piece(c: char) -> Seq<char> {
    if c == '\'' {
        seq!['\'', '\\', '\'', '\'']
    } else {
        seq![c]
    }
}

pub open spec fn quote_body(s: Seq<char>) -> Seq<char>
    decreases s.len(),
{
    if s.len() == 0 {
        Seq::empty()
    } else {
        quote_piece(s[0]) + quote_body(s.drop_first())
    }
}

/// `value` as one single-quoted POSIX shell word.
pub open spec fn spec_shell_quote(value: Seq<char>) -> Seq<char> {
    seq!['\''] + quote_body(value) + seq!['\'']
}

/// The text `cd` and its POSIX shell argument for a remote path, with a
/// leading `~/` kept as the home directory.
pub open spec fn spec_cd_command(path: Seq<char>) -> Seq<char> {
    if path.len() == 0 || path == seq!['~'] {
        seq!['c', 'd']
    } else if has_prefix(path, seq!['~', '/']) {
        seq!['c', 'd', ' ', '"', '$', 'H', 'O', 'M', 'E', '"', '/'] + spec_shell_quote(
            path.subrange(2, path.len() as int),
        )
    } else {
        seq!['c', 'd', ' '] + spec_shell_quote(path)
    }
}

/// What a POSIX shell reads from a word made of single-quoted runs and
/// backslash-escaped characters, outside any quotes; `None` for any other text.
pub open spec fn shell_word_value(q: Seq<char>) -> Option<Seq<char>>
    decreases q.len(), 0int,
{
    if q.len() == 0 {
        Some(Seq::empty())
    } else if q[0] == '\'' {
        shell_quoted_value(q.drop_first())
    } else if q[0] == '\\' && q.len() >= 2 {
        match shell_word_value(q.subrange(2, q.len() as int)) {
            Some(r) => Some(seq![q[1]] + r),
            None => None,
        }
    } else {
        None
    }
}

/// The same, inside a single-quoted run.
pub open spec fn shell_quoted_value(q: Seq<char>) -> Option<Seq<char>>
    decreases q.len(), 1int,
{
    if q.len() == 0 {
        None
    } else if q[0] == '\'' {
        shell_word_value(q.drop_first())
    } else {
        match shell_quoted_value(q.drop_first()) {
            Some(r) => Some(seq![q[0]] + r),
            None => None,
        }
    }
}

proof fn lemma_quote_body_push(s: Seq<char>, c: char)
    ensures
        quote_body(s.push(c)) == quote_body(s) + quote_piece(c),
    decreases s.len(),
{
    if s.len() == 0 {
        assert(s.push(c).drop_first() =~= Seq::<char>::empty());
        assert(quote_body(Seq::<char>::empty()) == Seq::<char>::empty());
        assert(quote_body(s) == Seq::<char>::empty());
        assert(quote_body(s.push(c)) == quote_piece(c) + quote_body(s.push(c).drop_first()));
        assert(quote_body(s.push(c)) =~= quote_body(s) + quote_piece(c));
    } else {
        assert(s.push(c).drop_first() =~= s.drop_first().push(c));
        lemma_quote_body_push(s.drop_first(), c);
        assert(quote_body(s.push(c)) =~= quote_body(s) + quote_piece(c));
    }
}

proof fn lemma_quoted_run(s: Seq<char>, t: Seq<char>)
    ensures
        shell_quoted_value(quote_body(s) + seq!['\''] + t) == (match shell_word_value(t) {
            Some(r) => Some(s + r),
            None => None,
        }),
    decreases s.len(),
{
    let q = quote_body(s) + seq!['\''] + t;
    if s.len() == 0 {
        assert(quote_body(s) == Seq::<char>::empty());
        assert(q =~= seq!['\''] + t);
        assert(q[0] == '\'');
        assert(q.drop_first() =~= t);
        assert(shell_quoted_value(q) == shell_word_value(t));
        match shell_word_value(t) {
            Some(r) => assert(s + r =~= r),
            None => {},
        }
    } else {
        let rest = quote_body(s.drop_first()) + seq!['\''] + t;
        lemma_quoted_run(s.drop_first(), t);
        assert(quote_body(s) == quote_piece(s[0]) + quote_body(s.drop_first()));
        if s[0] == '\'' {
            assert(q =~= seq!['\'', '\\', '\'', '\''] + rest);
            let q1 = q.drop_first();
            assert(q1 =~= seq!['\\', '\'', '\''] + rest);
            let q2 = q1.subrange(2, q1.len() as int);
            assert(q2 =~= seq!['\''] + rest);
            assert(q2.drop_first() =~= rest);
            assert(shell_word_value(q1) == (match shell_word_value(q2) {
                Some(r) => Some(seq![q1[1]] + r),
                None => None,
            }));
            assert(shell_word_value(q2) == shell_quoted_value(rest));
            assert(shell_quoted_value(q) == shell_word_value(q1));
            match shell_word_value(t) {
                Some(r) => {
                    assert(seq![q1[1]] + (s.drop_first() + r) =~= s + r);
                },
                None => {},
            }
        } else {
            assert(q =~= seq![s[0]] + rest);
            assert(q.drop_first() =~= rest);
            assert(q[0] == s[0]);
            match shell_word_value(t) {
                Some(r) => {
                    assert(seq![q[0]] + (s.drop_first() + r) =~= s + r);
                },
                None => {},
            }
        }
    }
}

/// A quoted value reads back, in a POSIX shell, as exactly the value it quotes.
pub proof fn law_shell_quote_round_trip(value: Seq<char>)
    ensures
        shell_word_value(spec_shell_quote(value)) == Some(value),
{
    let q = spec_shell_quote(value);
    assert(q.drop_first() =~= quote_body(value) + seq!['\''] + Seq::<char>::empty());
    lemma_quoted_run(value, Seq::<char>::empty());
    assert(value + Seq::<char>::empty() =~= value);
}

proof fn lemma_last_index_unique(s: Seq<char>, c: char, k: int)
    requires
        0 <= k < s.len(),
        s[k] == c,
        forall|j: int| k < j < s.len() ==> s[j] != c,
    ensures
        last_index_of(s, c) == k,
{
    lemma_last_index_of(s, c);
}

/// Opening a directory entry and going up again returns to the directory:
/// the parent of `parent` joined with a plain name is `parent` itself
/// (without trailing slashes, and `/` for the root).
pub proof fn law_parent_of_join(parent: Seq<char>, child: Seq<char>)
    requires
        child.len() > 0,
        forall|i: int| 0 <= i < child.len() ==> child[i] != '/',
    ensures
        spec_parent_path(spec_join_posix(parent, child)) == (if trim_end_char(parent, '/').len()
            == 0 {
            seq!['/']
        } else {
            trim_end_char(parent, '/')
        }),
{
    let p = trim_end_char(parent, '/');
    let j = spec_join_posix(parent, child);
    let pre = if p.len() == 0 {
        seq!['/']
    } else {
        p + seq!['/']
    };
    assert(j =~= pre + child);
    assert(j.last() == child.last());
    assert(trim_end_char(j, '/') == j);
    let k = pre.len() - 1;
    assert(j[k] == '/');
    assert forall|i: int| k < i < j.len() implies j[i] != '/' by {
        assert(j[i] == child[i - pre.len()]);
    }
    lemma_last_index_unique(j, '/', k);
    if p.len() > 0 {
        assert(j.subrange(0, k) =~= p);
    }
}

/// Adding a trailing slash twice adds it once.
pub proof fn law_ensure_trailing_slash_idempotent(path: Seq<char>)
    ensures
        spec_ensure_trailing_slash(spec_ensure_trailing_slash(path)) == spec_ensure_trailing_slash(
            path,
        ),
        spec_ensure_trailing_slash(path).last() == '/',
{
}

/// Joins a remote directory and an entry name with one `/`.
pub fn join_posix(parent: &str, child: &str) -> (r: String)
    ensures
        r@ == spec_join_posix(parent@, child@),
{
    let p = trim_end_matches(parent, '/');
    if p.as_str().unicode_len() == 0 {
        let mut r = String::new();
        push_char(&mut r, '/');
        r.append(child);
        assert(r@ =~= spec_join_posix(parent@, child@));
        r
    } else {
        let mut r = p;
        push_char(&mut r, '/');
        r.append(child);
        r
    }
}

/// The parent of a remote POSIX path.
pub fn parent_path(path: &str) -> (r: String)
    ensures
        r@ == spec_parent_path(path@),
{
    let t = trim_end_matches(path, '/');
    let n = t.as_str().unicode_len();
    if n == 0 {
        let mut r = String::new();
        push_char(&mut r, '/');
        assert(r@ =~= seq!['/']);
        return r;
    }
    match rfind_char(t.as_str(), '/') {
        None => {
            let mut r = String::new();
            push_char(&mut r, '.');
            assert(r@ =~= seq!['.']);
            r
        },
        Some(k) => {
            if k == 0 {
                let mut r = String::new();
                push_char(&mut r, '/');
                assert(r@ =~= seq!['/']);
                r
            } else {
                proof {
                    lemma_last_index_of(t@, '/');
                }
                substring(t.as_str(), 0, k)
            }
        },
    }
}

/// `path` with one trailing `/` guaranteed.
pub fn ensure_trailing_slash(path: &str) -> (r: String)
    ensures
        r@ == spec_ensure_trailing_slash(path@),
{
    let mut r = string_of(path);
    if !ends_with_char(path, '/') {
        push_char(&mut r, '/');
    }
    r
}

/// Quotes `value` as one POSIX shell word.
pub fn shell_quote(value: &str) -> (r: String)
    ensures
        r@ == spec_shell_quote(value@),
{
    let n = value.unicode_len();
    let mut r = String::new();
    push_char(&mut r, '\'');
    let mut i: usize = 0;
    while i < n
        invariant
            n == value@.len(),
            i <= n,
            r@ == seq!['\''] + quote_body(value@.subrange(0, i as int)),
        decreases n - i,
    {
        let c = value.get_char(i);
        proof {
            assert(value@.subrange(0, i + 1) =~= value@.subrange(0, i as int).push(c));
            lemma_quote_body_push(value@.subrange(0, i as int), c);
        }
        if c == '\'' {
            push_char(&mut r, '\'');
            push_char(&mut r, '\\');
            push_char(&mut r, '\'');
            push_char(&mut r, '\'');
        } else {
            push_char(&mut r, c);
        }
        i = i + 1;
        assert(r@ =~= seq!['\''] + quote_body(value@.subrange(0, i as int)));
    }
    push_char(&mut r, '\'');
    assert(value@.subrange(0, n as int) =~= value@);
    assert(r@ =~= spec_shell_quote(value@));
    r
}

/// The `cd` command that opens a remote path in the listing script.
pub fn cd_command(path: &str) -> (r: String)
    ensures
        r@ == spec_cd_command(path@),
{
    let n = path.unicode_len();
    if n == 0 || (n == 1 && path.get_char(0) == '~') {
        proof {
            if n == 1 && path@[0] == '~' {
                assert(path@ =~= seq!['~']);
            }
        }
        let r = string_of("cd");
        proof {
            reveal_strlit("cd");
        }
        assert(r@ =~= seq!['c', 'd']);
        return r;
    }
    proof {
        if path@ == seq!['~'] {
            assert(path@[0] == '~');
        }
    }
    if n >= 2 && path.get_char(0) == '~' && path.get_char(1) == '/' {
        proof {
            assert(path@.subrange(0, 2) =~= seq!['~', '/']);
        }
        let rest = substring(path, 2, n);
        let mut r = string_of("cd \"$HOME\"/");
        proof {
            reveal_strlit("cd \"$HOME\"/");
        }
        let q = shell_quote(rest.as_str());
        r.append(q.as_str());
        assert(r@ =~= spec_cd_command(path@));
        r
    } else {
        proof {
            if has_prefix(path@, seq!['~', '/']) {
                assert(path@[0] == path@.subrange(0, 2)[0]);
                assert(path@[1] == path@.subrange(0, 2)[1]);
            }
        }
        let mut r = string_of("cd ");
        proof {
            reveal_strlit("cd ");
        }
        let q = shell_quote(path);
        r.append(q.as_str());
        assert(r@ =~= spec_cd_command(path@));
        r
    }
}

/// One entry of a remote directory.
#[derive(Debug)]
pub struct RemoteEntry {
    pub name: String,
    pub path: String,
    pub is_dir: bool,
}

/// A remote directory: where it resolved to, and its entries.
#[derive(Debug)]
pub struct RemoteListing {
    pub cwd: String,
    pub entries: Vec<RemoteEntry>,
}

/// A remote entry as plain values.
pub struct RemoteEntryView {
    pub name: Seq<char>,
    pub path: Seq<char>,
    pub is_dir: bool,
}

impl View for RemoteEntry {
    type V = RemoteEntryView;

    open spec fn view(&self) -> RemoteEntryView {
        RemoteEntryView { name: self.name@, path: self.path@, is_dir: self.is_dir }
    }
}

impl RemoteEntry {
    /// A copy of the entry.
    pub fn duplicate(&self) -> (r: RemoteEntry)
        ensures
            r@ == self@,
    {
        RemoteEntry { name: self.name.clone(), path: self.path.clone(), is_dir: self.is_dir }
    }
}

pub open spec fn remote_views(v: Seq<RemoteEntry>) -> Seq<RemoteEntryView> {
    v.map_values(|e: RemoteEntry| e@)
}

/// The lines of a listing that are not empty.
pub open spec fn nonempty_lines(ls: Seq<Seq<char>>) -> Seq<Seq<char>>
    decreases ls.len(),
{
    if ls.len() == 0 {
        Seq::empty()
    } else if ls.last().len() == 0 {
        nonempty_lines(ls.drop_last())
    } else {
        nonempty_lines(ls.drop_last()).push(ls.last())
    }
}

/// The entry that one line of `ls -A1p` names: a trailing `/` marks a directory.
pub open spec fn entry_of_line(cwd: Seq<char>, line: Seq<char>) -> RemoteEntryView {
    let name = trim_end_char(line, '/');
    RemoteEntryView {
        name: name,
        path: spec_join_posix(cwd, name),
        is_dir: line.len() > 0 && line.last() == '/',
    }
}

/// The order key of a remote entry.
pub open spec fn remote_key(e: RemoteEntryView) -> (bool, Seq<char>) {
    (e.is_dir, lowercase(e.name))
}

/// The directory that the listing resolved to: its first line, or the path
/// asked for when the output is empty.
pub open spec fn listing_cwd(stdout: Seq<char>, path: Seq<char>) -> Seq<char> {
    let ls = split_lines(stdout);
    if ls.len() > 0 {
        ls[0]
    } else {
        path
    }
}

/// The entries that the listing names, in the order of the output.
pub open spec fn listing_entries(stdout: Seq<char>, path: Seq<char>) -> Seq<RemoteEntryView> {
    let ls = split_lines(stdout);
    let cwd = listing_cwd(stdout, path);
    let rest = if ls.len() > 0 {
        ls.drop_first()
    } else {
        ls
    };
    nonempty_lines(rest).map_values(|l: Seq<char>| entry_of_line(cwd, l))
}

/// The shell script that lists a remote directory: change into it, print
/// where it resolved to, then one entry per line, directories marked by `/`.
pub open spec fn spec_listing_script(path: Seq<char>) -> Seq<char> {
    spec_cd_command(path) + " && pwd -P && LC_ALL=C ls -A1p"@
}

/// The options that keep ssh from prompting or waiting long.
pub open spec fn ssh_options() -> Seq<Seq<char>> {
    seq!["-o"@, "BatchMode=yes"@, "-o"@, "ConnectTimeout=5"@, "-o"@, "ConnectionAttempts=1"@]
}

/// The options that keep ssh and scp from prompting or waiting long.
pub fn batch_options() -> (r: Vec<String>)
    ensures
        views(r@) == ssh_options(),
{
    let mut r: Vec<String> = Vec::new();
    r.push(string_of("-o"));
    r.push(string_of("BatchMode=yes"));
    r.push(string_of("-o"));
    r.push(string_of("ConnectTimeout=5"));
    r.push(string_of("-o"));
    r.push(string_of("ConnectionAttempts=1"));
    assert(views(r@) =~= ssh_options());
    r
}

/// The listing script for a remote path.
pub fn listing_script(path: &str) -> (r: String)
    ensures
        r@ == spec_listing_script(path@),
{
    let mut r = cd_command(path);
    r.append(" && pwd -P && LC_ALL=C ls -A1p");
    r
}

/// The arguments of an ssh call that runs `script` on `host`.
pub fn ssh_args(host: &str, script: &str) -> (r: Vec<String>)
    ensures
        views(r@) == ssh_options() + seq![host@, script@],
{
    let mut r = batch_options();
    let ghost before = views(r@);
    r.push(string_of(host));
    r.push(string_of(script));
    assert(views(r@) =~= before + seq![host@, script@]);
    r
}

/// Why a remote directory cannot be listed.
pub open spec fn spec_list_refusal(host: Seq<char>) -> Option<Seq<char>> {
    if trim_ws(host).len() == 0 {
        Some("set a remote host first"@)
    } else {
        None
    }
}

/// The arguments of the ssh call that lists `path` on `host`, or why there is
/// none: a host that is empty once trimmed is refused.
pub fn list_request(host: &str, path: &str) -> (r: Result<Vec<String>, String>)
    ensures
        match r {
            Ok(args) => spec_list_refusal(host@) is None && views(args@) == ssh_options() + seq![
                host@,
                spec_listing_script(path@),
            ],
            Err(m) => spec_list_refusal(host@) == Some(m@),
        },
{
    let t = trim(host);
    if t.as_str().unicode_len() == 0 {
        return Err(string_of("set a remote host first"));
    }
    let script = listing_script(path);
    Ok(ssh_args(host, script.as_str()))
}

/// The error text of a listing whose ssh call failed.
pub open spec fn spec_listing_failure(stderr: Seq<char>) -> Seq<char> {
    let t = trim_ws(stderr);
    "ssh listing failed: "@ + if t.len() == 0 {
        "unknown error"@
    } else {
        t
    }
}

/// The error text of a listing whose ssh call failed, from what it wrote to stderr.
pub fn listing_failure(stderr: &str) -> (r: String)
    ensures
        r@ == spec_listing_failure(stderr@),
{
    let t = trim(stderr);
    let mut r = string_of("ssh listing failed: ");
    if t.as_str().unicode_len() == 0 {
        r.append("unknown error");
    } else {
        r.append(t.as_str());
    }
    r
}

fn entry_from_line(cwd: &str, line: &str) -> (r: RemoteEntry)
    ensures
        r@ == entry_of_line(cwd@, line@),
{
    let is_dir = crate::text::ends_with_char(line, '/');
    let name = trim_end_matches(line, '/');
    let path = join_posix(cwd, name.as_str());
    RemoteEntry { name, path, is_dir }
}

/// A remote directory from the output of the listing script: the first line
/// is where it resolved to (the path asked for if there is none), every
/// other non-empty line an entry; directories first, then by lowercase
/// name, the order of the output kept between names that compare equal.
pub fn parse_listing(stdout: &str, path: &str) -> (r: RemoteListing)
    ensures
        r.cwd@ == listing_cwd(stdout@, path@),
        exists|p: Seq<usize>|
            is_stable_order(
                listing_entries(stdout@, path@).map_values(|e: RemoteEntryView| remote_key(e)),
                p,
            ) && remote_views(r.entries@) == permuted(listing_entries(stdout@, path@), p),
{
    let ls = lines(stdout);
    let ghost lv = views(ls@);
    let cwd = if ls.len() > 0 {
        ls[0].clone()
    } else {
        string_of(path)
    };
    let ghost rest = if lv.len() > 0 {
        lv.drop_first()
    } else {
        lv
    };
    let ghost built = listing_entries(stdout@, path@);
    let mut entries: Vec<RemoteEntry> = Vec::new();
    let mut keys: Vec<SortKey> = Vec::new();
    let mut i: usize = 1;
    proof {
        assert(rest =~= lv.subrange(if lv.len() > 0 { 1 } else { 0 }, lv.len() as int));
    }
    if ls.len() == 0 {
        i = 0;
    }
    let start = i;
    proof {
        assert(nonempty_lines(rest.subrange(0, 0)) =~= Seq::<Seq<char>>::empty());
    }
    while i < ls.len()
        invariant
            lv == views(ls@),
            lv == split_lines(stdout@),
            start <= i <= ls@.len(),
            start == (if lv.len() > 0 { 1int } else { 0int }),
            rest == lv.subrange(start as int, lv.len() as int),
            cwd@ == listing_cwd(stdout@, path@),
            entries@.len() == keys@.len(),
            remote_views(entries@) == nonempty_lines(rest.subrange(0, i - start)).map_values(
                |l: Seq<char>| entry_of_line(cwd@, l),
            ),
            keys_view(keys@) == remote_views(entries@).map_values(|e: RemoteEntryView| remote_key(e)),
        decreases ls.len() - i,
    {
        let line = ls[i].as_str();
        let ghost old_views = remote_views(entries@);
        let ghost old_keys = keys_view(keys@);
        proof {
            assert(rest.subrange(0, i + 1 - start) =~= rest.subrange(0, i - start).push(lv[i as int]));
            assert(rest.subrange(0, i + 1 - start).drop_last() =~= rest.subrange(0, i - start));
            assert(lv[i as int] == line@);
        }
        if line.unicode_len() > 0 {
            let e = entry_from_line(cwd.as_str(), line);
            let key = SortKey { is_dir: e.is_dir, name: to_lowercase(e.name.as_str()) };
            entries.push(e);
            keys.push(key);
            proof {
                assert(remote_views(entries@) =~= old_views.push(entry_of_line(cwd@, line@)));
                assert(keys_view(keys@) =~= old_keys.push(remote_key(entry_of_line(cwd@, line@))));
                assert(remote_views(entries@) =~= nonempty_lines(rest.subrange(0, i + 1 - start)).map_values(
                    |l: Seq<char>| entry_of_line(cwd@, l),
                ));
                assert(keys_view(keys@) =~= remote_views(entries@).map_values(
                    |e: RemoteEntryView| remote_key(e),
                ));
            }
        }
        i = i + 1;
    }
    proof {
        assert(rest.subrange(0, i - start) =~= rest);
        assert(remote_views(entries@) == built);
    }
    let p = stable_order(&keys);
    let ghost kb = built.map_values(|e: RemoteEntryView| remote_key(e));
    assert(keys_view(keys@) =~= kb);
    let mut r: Vec<RemoteEntry> = Vec::new();
    let mut j: usize = 0;
    while j < p.len()
        invariant
            j <= p@.len(),
            is_stable_order(kb, p@),
            kb.len() == entries@.len(),
            remote_views(entries@) == built,
            r@.len() == j,
            forall|k: int| 0 <= k < j ==> r@[k]@ == built[p@[k] as int],
        decreases p.len() - j,
    {
        let e = entries[p[j]].duplicate();
        proof {
            assert(remote_views(entries@)[p@[j as int] as int] == entries@[p@[j as int] as int]@);
        }
        r.push(e);
        j = j + 1;
    }
    assert(remote_views(r@) =~= permuted(built, p@));
    RemoteListing { cwd, entries: r }
}

/// The number of lines that are not empty.
pub open spec fn count_nonempty(ls: Seq<Seq<char>>) -> nat
    decreases ls.len(),
{
    if ls.len() == 0 {
        0
    } else {
        count_nonempty(ls.drop_last()) + if ls.last().len() > 0 {
            1nat
        } else {
            0nat
        }
    }
}

proof fn lemma_nonempty_lines(ls: Seq<Seq<char>>)
    ensures
        nonempty_lines(ls).len() == count_nonempty(ls),
        forall|j: int| 0 <= j < ls.len() && ls[j].len() > 0 ==> nonempty_lines(ls).contains(#[trigger] ls[j]),
        forall|k: int| 0 <= k < nonempty_lines(ls).len() ==> exists|j: int|
            0 <= j < ls.len() && ls[j].len() > 0 && #[trigger] nonempty_lines(ls)[k] == ls[j],
    decreases ls.len(),
{
    if ls.len() > 0 {
        let d = ls.drop_last();
        lemma_nonempty_lines(d);
        let n = nonempty_lines(d);
        assert forall|j: int| 0 <= j < ls.len() && ls[j].len() > 0 implies nonempty_lines(ls).contains(
            #[trigger] ls[j],
        ) by {
            if j < d.len() {
                assert(d[j] == ls[j]);
                assert(n.contains(d[j]));
                if ls.last().len() > 0 {
                    let k = choose|k: int| 0 <= k < n.len() && n[k] == d[j];
                    assert(n.push(ls.last())[k] == ls[j]);
                }
            } else {
                assert(n.push(ls.last())[n.len() as int] == ls[j]);
            }
        }
        assert forall|k: int| 0 <= k < nonempty_lines(ls).len() implies exists|j: int|
            0 <= j < ls.len() && ls[j].len() > 0 && #[trigger] nonempty_lines(ls)[k] == ls[j] by {
            if k < n.len() {
                let j = choose|j: int| 0 <= j < d.len() && d[j].len() > 0 && n[k] == d[j];
                assert(ls[j] == d[j]);
                if ls.last().len() > 0 {
                    assert(nonempty_lines(ls)[k] == n[k]);
                }
            } else {
                assert(nonempty_lines(ls)[k] == ls[ls.len() - 1]);
            }
        }
    }
}

/// Whether some non-empty line of the listing after the first names `e`.
pub open spec fn named_by_a_line(stdout: Seq<char>, path: Seq<char>, e: RemoteEntryView) -> bool {
    exists|j: int|
        1 <= j < split_lines(stdout).len() && (#[trigger] split_lines(stdout)[j]).len() > 0 && e
            == entry_of_line(listing_cwd(stdout, path), split_lines(stdout)[j])
}

/// Every line of the listing after the first names exactly one entry,
/// whatever its first character (`ls -A` lists the names that start with
/// `.` too), and only the empty lines are passed over: the entries are one
/// per non-empty line, each line giving its entry, in any order the result
/// is sorted into.
pub proof fn law_listing_has_an_entry_per_line(stdout: Seq<char>, path: Seq<char>)
    ensures
        listing_entries(stdout, path).len() == (if split_lines(stdout).len() > 0 {
            count_nonempty(split_lines(stdout).drop_first())
        } else {
            0
        }),
        forall|j: int|
            1 <= j < split_lines(stdout).len() && (#[trigger] split_lines(stdout)[j]).len() > 0
                ==> listing_entries(stdout, path).contains(
                entry_of_line(listing_cwd(stdout, path), split_lines(stdout)[j]),
            ),
        forall|k: int|
            0 <= k < listing_entries(stdout, path).len() ==> named_by_a_line(
                stdout,
                path,
                #[trigger] listing_entries(stdout, path)[k],
            ),
        forall|p: Seq<usize>|
            is_stable_order(
                listing_entries(stdout, path).map_values(|e: RemoteEntryView| remote_key(e)),
                p,
            ) ==> #[trigger] permuted(listing_entries(stdout, path), p).len() == listing_entries(
                stdout,
                path,
            ).len(),
{
    let ls = split_lines(stdout);
    let cwd = listing_cwd(stdout, path);
    let es = listing_entries(stdout, path);
    let rest = if ls.len() > 0 {
        ls.drop_first()
    } else {
        ls
    };
    lemma_nonempty_lines(rest);
    let n = nonempty_lines(rest);
    assert(es == n.map_values(|l: Seq<char>| entry_of_line(cwd, l)));
    assert forall|j: int| 1 <= j < ls.len() && ls[j].len() > 0 implies es.contains(
        entry_of_line(cwd, #[trigger] ls[j]),
    ) by {
        assert(rest[j - 1] == ls[j]);
        assert(n.contains(rest[j - 1]));
        let k = choose|k: int| 0 <= k < n.len() && n[k] == rest[j - 1];
        assert(es[k] == entry_of_line(cwd, ls[j]));
    }
    assert forall|k: int| 0 <= k < es.len() implies named_by_a_line(stdout, path, #[trigger] es[k]) by {
        assert(es[k] == entry_of_line(cwd, n[k]));
        let j = choose|j: int| 0 <= j < rest.len() && rest[j].len() > 0 && #[trigger] n[k] == rest[j];
        assert(ls.len() > 0);
        assert(ls[j + 1] == rest[j]);
        assert(es[k] == entry_of_line(cwd, ls[j + 1]));
    }
    assert forall|p: Seq<usize>|
        is_stable_order(es.map_values(|e: RemoteEntryView| remote_key(e)), p) implies #[trigger] permuted(
            es,
            p,
        ).len() == es.len() by {
        assert(es.map_values(|e: RemoteEntryView| remote_key(e)).len() == es.len());
    }
    if ls.len() == 0 {
        assert(count_nonempty(rest) == 0);
    }
    assert(es.len() == n.len());
    assert(es.len() == (if ls.len() > 0 { count_nonempty(ls.drop_first()) } else { 0 }));
}

} // verus!
