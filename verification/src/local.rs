//! Local directory entries: their type column, their size text, and the
//! order the browser shows them in.
use vstd::prelude::*;
use vstd::string::*;
use crate::order::{SortKey, is_stable_order, keys_view, permuted, stable_order};
use crate::paths::{extension, lowercase, opt_string_view, path_extension, to_lowercase};
use crate::text::{decimal, digit_char, push_char, string_of, u64_to_string, views};

verus! {

/// One entry of a local directory, as the browser shows it.
#[derive(Debug)]
pub struct LocalEntry {
    pub name: String,
    pub path: String,
    pub is_dir: bool,
    pub file_type: String,
    pub size: Option<u64>,
    pub marked: bool,
}

/// A local entry as plain values.
pub struct LocalEntryView {
    pub name: Seq<char>,
    pub path: Seq<char>,
    pub is_dir: bool,
    pub file_type: Seq<char>,
    pub size: Option<u64>,
    pub marked: bool,
}

impl View for LocalEntry {
    type V = LocalEntryView;

    open spec fn view(&self) -> LocalEntryView {
        LocalEntryView {
            name: self.name@,
            path: self.path@,
            is_dir: self.is_dir,
            file_type: self.file_type@,
            size: self.size,
            marked: self.marked,
        }
    }
}

/// What the file system reports of one directory entry.
#[derive(Debug)]
pub struct DirEntryInfo {
    pub name: String,
    pub path: String,
    pub is_dir: bool,
    /// The length that the entry's metadata gives.
    pub len: u64,
}

impl LocalEntry {
    /// A copy of the entry.
    pub fn duplicate(&self) -> (r: LocalEntry)
        ensures
            r@ == self@,
    {
        LocalEntry {
            name: self.name.clone(),
            path: self.path.clone(),
            is_dir: self.is_dir,
            file_type: self.file_type.clone(),
            size: self.size,
            marked: self.marked,
        }
    }
}

pub open spec fn local_views(v: Seq<LocalEntry>) -> Seq<LocalEntryView> {
    v.map_values(|e: LocalEntry| e@)
}

/// The type column: `dir` for a directory, the lowercase extension of a
/// file, or `file` where there is none.
pub open spec fn spec_file_type(path: Seq<char>, is_dir: bool) -> Seq<char> {
    if is_dir {
        seq!['d', 'i', 'r']
    } else {
        match path_extension(path) {
            Some(e) => if lowercase(e).len() > 0 {
                lowercase(e)
            } else {
                seq!['f', 'i', 'l', 'e']
            },
            None => seq!['f', 'i', 'l', 'e'],
        }
    }
}

/// The type column of an entry.
pub fn file_type(path: &str, is_dir: bool) -> (r: String)
    ensures
        r@ == spec_file_type(path@, is_dir),
{
    if is_dir {
        let r = string_of("dir");
        proof {
            reveal_strlit("dir");
        }
        assert(r@ =~= seq!['d', 'i', 'r']);
        return r;
    }
    let fallback = "file";
    proof {
        reveal_strlit("file");
        assert(fallback@ =~= seq!['f', 'i', 'l', 'e']);
    }
    match extension(path) {
        Some(e) => {
            let l = to_lowercase(e.as_str());
            if l.as_str().unicode_len() > 0 {
                l
            } else {
                string_of(fallback)
            }
        },
        None => string_of(fallback),
    }
}

/// An entry as the browser shows it, built from what the file system reports.
pub open spec fn spec_local_entry(info: DirEntryInfo, marks: Set<Seq<char>>) -> LocalEntryView {
    LocalEntryView {
        name: info.name@,
        path: info.path@,
        is_dir: info.is_dir,
        file_type: spec_file_type(info.path@, info.is_dir),
        size: if info.is_dir {
            None
        } else {
            Some(info.len)
        },
        marked: marks.contains(info.path@),
    }
}

/// The order key of an entry: directories first, then its lowercase name.
pub open spec fn entry_key(e: LocalEntryView) -> (bool, Seq<char>) {
    (e.is_dir, lowercase(e.name))
}

/// The entries in listing order: `built` sorted stably by `entry_key`.
pub open spec fn is_listing_of(r: Seq<LocalEntryView>, built: Seq<LocalEntryView>) -> bool {
    exists|p: Seq<usize>|
        is_stable_order(built.map_values(|e: LocalEntryView| entry_key(e)), p) && r == permuted(
            built,
            p,
        )
}

pub open spec fn contains_path(marks: Seq<String>, path: Seq<char>) -> bool {
    views(marks).contains(path)
}

pub fn has_path(marks: &Vec<String>, path: &str) -> (b: bool)
    ensures
        b == contains_path(marks@, path@),
{
    let mut i: usize = 0;
    while i < marks.len()
        invariant
            i <= marks@.len(),
            forall|k: int| 0 <= k < i ==> marks@[k]@ != path@,
        decreases marks.len() - i,
    {
        if crate::text::str_eq(marks[i].as_str(), path) {
            assert(views(marks@)[i as int] == path@);
            return true;
        }
        i = i + 1;
    }
    assert(!views(marks@).contains(path@)) by {
        if views(marks@).contains(path@) {
            let k = choose|k: int| 0 <= k < views(marks@).len() && views(marks@)[k] == path@;
            assert(marks@[k]@ == path@);
        }
    }
    false
}

/// The entries of a directory as the browser lists them: each with its type
/// column, its size if it is a file, and whether its path is marked;
/// directories first, then by lowercase name, the order of `infos` kept
/// between names that compare equal.
pub fn listing_entries(infos: Vec<DirEntryInfo>, marks: &Vec<String>) -> (r: Vec<LocalEntry>)
    ensures
        is_listing_of(
            local_views(r@),
            infos@.map_values(|i: DirEntryInfo| spec_local_entry(i, views(marks@).to_set())),
        ),
{
    let ghost built = infos@.map_values(|i: DirEntryInfo| spec_local_entry(i, views(marks@).to_set()));
    let mut entries: Vec<LocalEntry> = Vec::new();
    let mut keys: Vec<SortKey> = Vec::new();
    let mut i: usize = 0;
    while i < infos.len()
        invariant
            i <= infos@.len(),
            built == infos@.map_values(|i: DirEntryInfo| spec_local_entry(i, views(marks@).to_set())),
            entries@.len() == i,
            keys@.len() == i,
            forall|k: int| 0 <= k < i ==> entries@[k]@ == built[k],
            forall|k: int| 0 <= k < i ==> keys_view(keys@)[k] == entry_key(built[k]),
        decreases infos.len() - i,
    {
        let info = &infos[i];
        let marked = has_path(marks, info.path.as_str());
        proof {
            assert(views(marks@).to_set().contains(info.path@) == views(marks@).contains(info.path@));
        }
        let entry = LocalEntry {
            name: info.name.clone(),
            path: info.path.clone(),
            is_dir: info.is_dir,
            file_type: file_type(info.path.as_str(), info.is_dir),
            size: if info.is_dir {
                None
            } else {
                Some(info.len)
            },
            marked,
        };
        let key = SortKey { is_dir: info.is_dir, name: to_lowercase(info.name.as_str()) };
        let ghost old_keys = keys@;
        let ghost old_entries = entries@;
        entries.push(entry);
        keys.push(key);
        proof {
            assert(built[i as int] == spec_local_entry(infos@[i as int], views(marks@).to_set()));
            assert(entries@[i as int]@ == built[i as int]);
            assert(keys_view(keys@)[i as int] == entry_key(built[i as int]));
            assert forall|k: int| 0 <= k < i + 1 implies keys_view(keys@)[k] == entry_key(built[k]) by {
                if k < i {
                    assert(keys@[k] == old_keys[k]);
                    assert(keys_view(old_keys)[k] == entry_key(built[k]));
                }
            }
            assert forall|k: int| 0 <= k < i + 1 implies entries@[k]@ == built[k] by {
                if k < i {
                    assert(entries@[k] == old_entries[k]);
                }
            }
        }
        i = i + 1;
    }
    let p = stable_order(&keys);
    let ghost kb = built.map_values(|e: LocalEntryView| entry_key(e));
    assert(keys_view(keys@) =~= kb);
    let mut r: Vec<LocalEntry> = Vec::new();
    let mut j: usize = 0;
    while j < p.len()
        invariant
            j <= p@.len(),
            is_stable_order(kb, p@),
            kb.len() == entries@.len(),
            forall|k: int| 0 <= k < entries@.len() ==> entries@[k]@ == built[k],
            r@.len() == j,
            forall|k: int| 0 <= k < j ==> r@[k]@ == built[p@[k] as int],
        decreases p.len() - j,
    {
        let e = entries[p[j]].duplicate();
        r.push(e);
        j = j + 1;
    }
    assert(local_views(r@) =~= permuted(built, p@));
    r
}

/// The unit names of the size column.
pub open spec fn unit_name(u: nat) -> Seq<char> {
    if u == 1 {
        seq!['K', 'B']
    } else if u == 2 {
        seq!['M', 'B']
    } else if u == 3 {
        seq!['G', 'B']
    } else if u == 4 {
        seq!['T', 'B']
    } else {
        seq!['B']
    }
}

/// 1024 to the power `u`, for the units used.
pub open spec fn unit_divisor(u: nat) -> nat {
    if u == 1 {
        1024
    } else if u == 2 {
        1048576
    } else if u == 3 {
        1073741824
    } else if u == 4 {
        1099511627776
    } else {
        1
    }
}

pub open spec fn two53() -> nat {
    9007199254740992
}

/// The power of two by which a number is too wide for the 53-bit significand
/// of an `f64`.
pub open spec fn f64_scale(n: nat) -> nat
    decreases n,
{
    if n < two53() {
        1
    } else {
        2 * f64_scale(n / 2)
    }
}

/// `n as f64`: `n` rounded to 53 significant bits, a tie going to the even
/// significand.
pub open spec fn round_to_f64(n: nat) -> nat {
    let p = f64_scale(n);
    let m = n / p;
    let r = n % p;
    if p == 1 {
        n
    } else if r * 2 > p || (r * 2 == p && m % 2 == 1) {
        (m + 1) * p
    } else {
        m * p
    }
}

/// `x / d` rounded to the nearest whole number, a tie going to the even one.
pub open spec fn round_half_even(x: nat, d: nat) -> nat {
    let q = x / d;
    let r = x % d;
    if r * 2 > d || (r * 2 == d && q % 2 == 1) {
        q + 1
    } else {
        q
    }
}

/// The largest unit that the value reaches.
pub open spec fn unit_of(f: nat) -> nat {
    if f >= 1099511627776 {
        4
    } else if f >= 1073741824 {
        3
    } else if f >= 1048576 {
        2
    } else if f >= 1024 {
        1
    } else {
        0
    }
}

/// The size column: empty for no size, whole bytes below 1024, otherwise the
/// size in the largest unit it reaches with one decimal, rounded as `{:.1}`
/// rounds the `f64` value.
pub open spec fn spec_format_size(size: Option<u64>) -> Seq<char> {
    match size {
        None => Seq::empty(),
        Some(s) => {
            let f = round_to_f64(s as nat);
            let u = unit_of(f);
            if u == 0 {
                decimal(s as nat) + seq![' ', 'B']
            } else {
                let t = round_half_even(10 * f, unit_divisor(u));
                decimal(t / 10) + seq!['.', digit_char(t % 10), ' '] + unit_name(u)
            }
        },
    }
}

fn rounded_to_f64(n: u64) -> (f: u128)
    ensures
        f == round_to_f64(n as nat),
        f < 0x2_0000_0000_0000_0000,
        n < 1024 <==> f < 1024,
{
    if n < 9007199254740992 {
        return n as u128;
    }
    let mut t: u64 = n;
    let mut p: u64 = 1;
    while t >= 9007199254740992
        invariant
            t as nat == (n as nat) / (p as nat),
            p >= 1,
            p < 4096,
            p == 1 || t >= two53() / 2,
            f64_scale(n as nat) == (p as nat) * f64_scale(t as nat),
            (p as nat) * (t as nat) <= n,
        decreases t,
    {
        proof {
            assert((p as nat) * (t as nat) >= (p as nat) * two53()) by (nonlinear_arith)
                requires
                    t >= two53(),
                    p >= 1,
            ;
            assert(p < 2048);
            vstd::arithmetic::div_mod::lemma_div_denominator(n as int, p as int, 2);
            assert(f64_scale(t as nat) == 2 * f64_scale((t / 2) as nat));
            assert((p as nat) * (2 * f64_scale((t / 2) as nat)) == ((p * 2) as nat) * f64_scale(
                (t / 2) as nat,
            )) by (nonlinear_arith);
            assert(((p * 2) as nat) * ((t / 2) as nat) <= (p as nat) * (t as nat)) by (
            nonlinear_arith)
                requires
                    p >= 1,
            ;
        }
        t = t / 2;
        p = p * 2;
    }
    let m = n / p;
    let r = n % p;
    proof {
        assert(f64_scale(t as nat) == 1);
        assert((p as nat) * f64_scale(t as nat) == p as nat) by (nonlinear_arith)
            requires
                f64_scale(t as nat) == 1,
        ;
        assert(f64_scale(n as nat) == p as nat);
        assert(m == t);
        assert(p >= 2) by {
            if p == 1 {
                assert(t == n);
            }
        }
        assert((m as nat) * (p as nat) <= n) by (nonlinear_arith)
            requires
                m == n / p,
                p >= 1,
        ;
        assert(((m + 1) as nat) * (p as nat) <= 0x1_0000_0000_0000_1000) by (nonlinear_arith)
            requires
                m == n / p,
                p >= 2,
                m < two53(),
                p < 4096,
                (p as nat) * (m as nat) <= n,
        ;
    }
    let up = r * 2 > p || (r * 2 == p && m % 2 == 1);
    let f: u128 = if up {
        (m as u128 + 1) * (p as u128)
    } else {
        (m as u128) * (p as u128)
    };
    proof {
        assert((m as nat) * (p as nat) >= two53() * 1) by (nonlinear_arith)
            requires
                m >= two53() / 2,
                p >= 2,
        ;
        assert(((m + 1) as nat) * (p as nat) >= (m as nat) * (p as nat)) by (nonlinear_arith);
        assert(f >= 1024);
    }
    f
}

fn unit_of_value(f: u128) -> (u: u64)
    ensures
        u == unit_of(f as nat),
{
    if f >= 1099511627776 {
        4
    } else if f >= 1073741824 {
        3
    } else if f >= 1048576 {
        2
    } else if f >= 1024 {
        1
    } else {
        0
    }
}

fn divisor_of(u: u64) -> (d: u128)
    requires
        1 <= u <= 4,
    ensures
        d == unit_divisor(u as nat),
{
    if u == 1 {
        1024
    } else if u == 2 {
        1048576
    } else if u == 3 {
        1073741824
    } else {
        1099511627776
    }
}

fn unit_label(u: u64) -> (r: String)
    requires
        1 <= u <= 4,
    ensures
        r@ == unit_name(u as nat),
{
    let mut r = String::new();
    if u == 1 {
        push_char(&mut r, 'K');
    } else if u == 2 {
        push_char(&mut r, 'M');
    } else if u == 3 {
        push_char(&mut r, 'G');
    } else {
        push_char(&mut r, 'T');
    }
    push_char(&mut r, 'B');
    assert(r@ =~= unit_name(u as nat));
    r
}

fn digit_for(d: u128) -> (c: char)
    requires
        d < 10,
    ensures
        c == digit_char(d as nat),
{
    if d == 0 {
        '0'
    } else if d == 1 {
        '1'
    } else if d == 2 {
        '2'
    } else if d == 3 {
        '3'
    } else if d == 4 {
        '4'
    } else if d == 5 {
        '5'
    } else if d == 6 {
        '6'
    } else if d == 7 {
        '7'
    } else if d == 8 {
        '8'
    } else {
        '9'
    }
}

/// The size column of an entry.
pub fn format_size(size: Option<u64>) -> (r: String)
    ensures
        r@ == spec_format_size(size),
{
    let s = match size {
        None => {
            return String::new();
        },
        Some(s) => s,
    };
    let f = rounded_to_f64(s);
    let u = unit_of_value(f);
    if u == 0 {
        let mut r = u64_to_string(s);
        push_char(&mut r, ' ');
        push_char(&mut r, 'B');
        assert(r@ =~= spec_format_size(size));
        return r;
    }
    let d = divisor_of(u);
    let x = 10 * f;
    let q = x / d;
    let rem = x % d;
    let t = if rem * 2 > d || (rem * 2 == d && q % 2 == 1) {
        q + 1
    } else {
        q
    };
    assert(t as nat == round_half_even(10 * (f as nat), unit_divisor(u as nat)));
    proof {
        assert(q <= x / 1024) by {
            vstd::arithmetic::div_mod::lemma_div_is_ordered_by_denominator(x as int, 1024, d as int);
        }
        assert(t / 10 < 0x1_0000_0000_0000_0000);
    }
    let whole = (t / 10) as u64;
    let mut r = u64_to_string(whole);
    push_char(&mut r, '.');
    push_char(&mut r, digit_for(t % 10));
    push_char(&mut r, ' ');
    let label = unit_label(u);
    r.append(label.as_str());
    assert(r@ =~= spec_format_size(size));
    r
}

/// In a listing, every directory comes before every file.
pub proof fn law_directories_first(r: Seq<LocalEntryView>, built: Seq<LocalEntryView>)
    requires
        is_listing_of(r, built),
    ensures
        forall|i: int, j: int| 0 <= i < j < r.len() && r[j].is_dir ==> r[i].is_dir,
{
    let p = choose|p: Seq<usize>|
        is_stable_order(built.map_values(|e: LocalEntryView| entry_key(e)), p) && r == permuted(
            built,
            p,
        );
    let keys = built.map_values(|e: LocalEntryView| entry_key(e));
    assert forall|i: int, j: int| 0 <= i < j < r.len() && r[j].is_dir implies r[i].is_dir by {
        assert(r[i] == built[p[i] as int]);
        assert(r[j] == built[p[j] as int]);
        assert((p[i] as int) < keys.len() && (p[j] as int) < keys.len());
        assert(keys[p[i] as int] == entry_key(built[p[i] as int]));
        assert(keys[p[j] as int] == entry_key(built[p[j] as int]));
        assert(crate::order::key_lt(keys[p[i] as int], keys[p[j] as int]) || keys[p[i] as int]
            == keys[p[j] as int]);
    }
}

/// `s` filled with spaces on the right up to `width` characters, as the
/// format `{:<width}` writes it; longer text is left whole.
pub open spec fn pad_right(s: Seq<char>, width: nat) -> Seq<char> {
    if s.len() >= width {
        s
    } else {
        s + Seq::new((width - s.len()) as nat, |_i: int| ' ')
    }
}

/// The line of the local pane for one entry: the mark, `[D]` or `[F]`, the
/// file type padded to 6 characters, then the name alone where there is no
/// size, or the name padded to 44 characters and the size.
pub open spec fn spec_local_entry_line(e: LocalEntryView) -> Seq<char> {
    let marker = if e.marked {
        seq!['*']
    } else {
        seq![' ']
    };
    let kind = if e.is_dir {
        seq!['[', 'D', ']']
    } else {
        seq!['[', 'F', ']']
    };
    let head = marker + seq![' '] + kind + seq![' '] + pad_right(e.file_type, 6) + seq![' '];
    let size = spec_format_size(e.size);
    if size.len() == 0 {
        head + e.name
    } else {
        head + pad_right(e.name, 44) + seq![' '] + size
    }
}

/// Appends `s`, then spaces up to `width` characters in all.
fn push_padded(out: &mut String, s: &str, width: usize)
    ensures
        final(out)@ == old(out)@ + pad_right(s@, width as nat),
{
    out.append(s);
    let n = s.unicode_len();
    let ghost start = out@;
    let mut k: usize = n;
    while k < width
        invariant
            n == s@.len(),
            n <= k <= width || (k == n && n >= width),
            start == old(out)@ + s@,
            out@ == start + Seq::new((k - n) as nat, |_i: int| ' '),
        decreases width - k,
    {
        let ghost before = out@;
        push_char(out, ' ');
        assert(out@ =~= start + Seq::new((k + 1 - n) as nat, |_i: int| ' ')) by {
            assert(before =~= start + Seq::new((k - n) as nat, |_i: int| ' '));
        }
        k = k + 1;
    }
    if n >= width {
        assert(out@ =~= old(out)@ + s@);
    } else {
        assert(out@ =~= old(out)@ + (s@ + Seq::new((width - n) as nat, |_i: int| ' ')));
    }
}

/// The text of an entry's line in the local pane.
pub fn local_entry_line(entry: &LocalEntry) -> (r: String)
    ensures
        r@ == spec_local_entry_line(entry@),
{
    let mut r = String::new();
    push_char(&mut r, if entry.marked { '*' } else { ' ' });
    push_char(&mut r, ' ');
    push_char(&mut r, '[');
    push_char(&mut r, if entry.is_dir { 'D' } else { 'F' });
    push_char(&mut r, ']');
    push_char(&mut r, ' ');
    push_padded(&mut r, entry.file_type.as_str(), 6);
    push_char(&mut r, ' ');
    let size = format_size(entry.size);
    if size.unicode_len() == 0 {
        r.append(entry.name.as_str());
    } else {
        push_padded(&mut r, entry.name.as_str(), 44);
        push_char(&mut r, ' ');
        r.append(size.as_str());
    }
    assert(r@ =~= spec_local_entry_line(entry@));
    r
}

} // verus!
