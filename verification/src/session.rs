//! Session bookkeeping: where saves live, how save ids are named, which
//! directory entries are saves, in what order they are listed, and which
//! save versions can be loaded. Reading and writing the files is left to the
//! caller.
use vstd::prelude::*;
use vstd::relations::sorted_by;
use vstd::string::*;
use crate::strings::{chars_of, chars_ge, push_chars, sort_descending, string_from_chars};
use crate::text::{decimal, lemma_decimal_injective, lemma_decimal_len_pos, push_char, push_decimal};
use vstd::set_lib::{lemma_int_range, lemma_len_subset, lemma_map_size, set_int_range};
use crate::timestamp::{format_iso8601, format_save_id, iso8601_text, save_id_text, unix_time_secs};

verus! {

#[verifier::external_type_specification]
#[verifier::external_body]
pub struct ExIoError(std::io::Error);

#[verifier::external_type_specification]
#[verifier::external_body]
pub struct ExJsonError(serde_json::Error);

/// Errors that can occur during session I/O.
pub enum SessionError {
    Io(std::io::Error),
    Json(serde_json::Error),
    Storage(String),
}

/// `base` joined with `part`, using `/` as separator; an absolute `part`
/// (one that starts with `/`) replaces `base`.
pub open spec fn path_join(base: Seq<char>, part: Seq<char>) -> Seq<char> {
    if part.len() > 0 && part[0] == '/' {
        part
    } else if base.len() == 0 {
        part
    } else if base.last() == '/' {
        base + part
    } else {
        base + seq!['/'] + part
    }
}

/// Index of the last occurrence of `c` in `s`, or -1.
pub open spec fn last_index_of(s: Seq<char>, c: char) -> int
    decreases s.len(),
{
    if s.len() == 0 {
        -1
    } else if s.last() == c {
        s.len() - 1
    } else {
        last_index_of(s.drop_last(), c)
    }
}

/// The save id a directory entry names: the stem of a `<stem>.json` file name
/// whose stem is not empty.
pub open spec fn json_stem(name: Seq<char>) -> Option<Seq<char>> {
    let dot = last_index_of(name, '.');
    if dot > 0 && name.skip(dot + 1) == seq!['j', 's', 'o', 'n'] {
        Some(name.take(dot))
    } else {
        None
    }
}

/// The save ids among the given file names, in their order.
pub open spec fn save_ids_of(names: Seq<Seq<char>>) -> Seq<Seq<char>> {
    names.filter_map(|name: Seq<char>| json_stem(name))
}

/// `last_index_of` is -1 or the position of an occurrence of `c`.
pub proof fn lemma_last_index_bounds(s: Seq<char>, c: char)
    ensures
        -1 <= last_index_of(s, c) < s.len(),
        last_index_of(s, c) >= 0 ==> s[last_index_of(s, c)] == c,
    decreases s.len(),
{
    if s.len() > 0 && s.last() != c {
        lemma_last_index_bounds(s.drop_last(), c);
    }
}

/// Position of the last `c` in `v`, if any.
pub fn find_last(v: &Vec<char>, c: char) -> (r: Option<usize>)
    ensures
        match r {
            Some(i) => i as int == last_index_of(v@, c),
            None => last_index_of(v@, c) == -1,
        },
{
    let mut i = v.len();
    proof {
        assert(v@.take(v.len() as int) =~= v@);
    }
    while i > 0
        invariant
            i <= v.len(),
            last_index_of(v@, c) == last_index_of(v@.take(i as int), c),
        decreases i,
    {
        if v[i - 1] == c {
            assert(v@.take(i as int).last() == c);
            return Some(i - 1);
        }
        assert(v@.take(i as int).drop_last() =~= v@.take(i - 1));
        i = i - 1;
    }
    None
}

/// The save id named by a directory entry, if it is a `<id>.json` file.
pub fn save_id_from_file_name(name: &str) -> (r: Option<String>)
    ensures
        match r {
            Some(id) => json_stem(name@) == Some(id@),
            None => json_stem(name@) is None,
        },
{
    let v = chars_of(name);
    match find_last(&v, '.') {
        None => None,
        Some(dot) => {
            proof {
                lemma_last_index_bounds(v@, '.');
            }
            if dot == 0 {
                return None;
            }
            let n = v.len();
            let ext_ok = n - dot == 5 && v[dot + 1] == 'j' && v[dot + 2] == 's' && v[dot + 3] == 'o'
                && v[dot + 4] == 'n';
            assert(ext_ok <==> v@.skip(dot + 1) == seq!['j', 's', 'o', 'n']) by {
                if ext_ok {
                    assert(v@.skip(dot + 1) =~= seq!['j', 's', 'o', 'n']);
                }
                if v@.skip(dot + 1) == seq!['j', 's', 'o', 'n'] {
                    assert(v@.skip(dot + 1).len() == 4);
                    assert(v@.skip(dot + 1)[0] == v@[dot + 1]);
                    assert(v@.skip(dot + 1)[1] == v@[dot + 2]);
                    assert(v@.skip(dot + 1)[2] == v@[dot + 3]);
                    assert(v@.skip(dot + 1)[3] == v@[dot + 4]);
                }
            }
            if ext_ok {
                let mut id = String::new();
                push_chars(&mut id, &v, 0, dot);
                assert(id@ =~= v@.take(dot as int));
                Some(id)
            } else {
                None
            }
        }
    }
}

/// `base` joined with `part` (see [`path_join`]).
pub fn join_path(base: &str, part: &str) -> (p: String)
    ensures
        p@ == path_join(base@, part@),
{
    let b = chars_of(base);
    let p = chars_of(part);
    let mut out = string_from_chars(&b);
    if b.len() == 0 || (p.len() > 0 && p[0] == '/') {
        return String::from_str(part);
    }
    if b[b.len() - 1] != '/' {
        push_char(&mut out, '/');
    }
    out.append(part);
    out
}

proof fn lemma_json_stem_injective(a: Seq<char>, b: Seq<char>)
    requires
        json_stem(a) is Some,
        json_stem(a) == json_stem(b),
    ensures
        a == b,
{
    let da = last_index_of(a, '.');
    let db = last_index_of(b, '.');
    lemma_last_index_bounds(a, '.');
    lemma_last_index_bounds(b, '.');
    let x = json_stem(a)->0;
    assert(a =~= a.take(da) + seq!['.'] + a.skip(da + 1));
    assert(b =~= b.take(db) + seq!['.'] + b.skip(db + 1));
    assert(a =~= x + seq!['.', 'j', 's', 'o', 'n']);
    assert(b =~= x + seq!['.', 'j', 's', 'o', 'n']);
}

/// Law: distinct directory entries name distinct saves, so the save ids of
/// a directory never repeat.
pub proof fn lemma_distinct_entries_give_distinct_ids(names: Seq<Seq<char>>)
    requires
        names.no_duplicates(),
    ensures
        save_ids_of(names).no_duplicates(),
    decreases names.len(),
{
    if names.len() > 0 {
        let rest = names.drop_last();
        assert(rest.no_duplicates());
        lemma_distinct_entries_give_distinct_ids(rest);
        let f = |name: Seq<char>| json_stem(name);
        assert(save_ids_of(names) == rest.filter_map(f) + match f(names.last()) {
            Some(x) => seq![x],
            None => Seq::<Seq<char>>::empty(),
        });
        if let Some(x) = json_stem(names.last()) {
            if rest.filter_map(f).contains(x) {
                rest.lemma_filter_map_contains(f, x);
                let t = choose|t: Seq<char>| #[trigger] rest.contains(t) && f(t) == Some(x);
                lemma_json_stem_injective(t, names.last());
                let k = choose|k: int| 0 <= k < rest.len() && rest[k] == t;
                assert(names[k] == names[names.len() - 1]);
            }
            let p = rest.filter_map(f);
            let q = save_ids_of(names);
            assert forall|i: int, j: int| 0 <= i < q.len() && 0 <= j < q.len() && i != j implies q[i] != q[j] by {
                if i < p.len() && j < p.len() {
                } else if i < p.len() {
                    assert(p.contains(q[i]));
                } else if j < p.len() {
                    assert(p.contains(q[j]));
                }
            }
        }
    }
}

/// Save ids found among directory entry names, newest first
/// (reverse code-point order of the timestamp-shaped ids).
pub fn collect_save_ids(file_names: &Vec<String>) -> (ids: Vec<String>)
    ensures
        sorted_by(ids@.map_values(|s: String| s@), |a: Seq<char>, b: Seq<char>| chars_ge(a, b)),
        ids@.map_values(|s: String| s@).to_multiset()
            == save_ids_of(file_names@.map_values(|s: String| s@)).to_multiset(),
        file_names@.map_values(|s: String| s@).no_duplicates() ==> ids@.map_values(|s: String| s@).no_duplicates(),
{
    let mut found: Vec<String> = Vec::new();
    let mut i: usize = 0;
    while i < file_names.len()
        invariant
            i <= file_names.len(),
            found@.map_values(|s: String| s@)
                == save_ids_of(file_names@.take(i as int).map_values(|s: String| s@)),
        decreases file_names.len() - i,
    {
        let ghost prev = file_names@.take(i as int).map_values(|s: String| s@);
        let ghost next = file_names@.take(i + 1).map_values(|s: String| s@);
        assert(next.drop_last() =~= prev);
        assert(next.last() == file_names@[i as int]@);
        match save_id_from_file_name(file_names[i].as_str()) {
            Some(id) => {
                found.push(id);
                assert(found@.map_values(|s: String| s@) =~= save_ids_of(next));
            },
            None => {
                assert(found@.map_values(|s: String| s@) =~= save_ids_of(next));
            },
        }
        i = i + 1;
    }
    assert(file_names@.take(file_names.len() as int) =~= file_names@);
    let ids = sort_descending(found);
    proof {
        let names = file_names@.map_values(|s: String| s@);
        if names.no_duplicates() {
            let stems = save_ids_of(names);
            let v = ids@.map_values(|s: String| s@);
            lemma_distinct_entries_give_distinct_ids(names);
            stems.lemma_multiset_has_no_duplicates();
            assert(v.to_multiset() == stems.to_multiset());
            v.lemma_multiset_has_no_duplicates_conv();
        }
    }
    ids
}

/// The platform's per-user data directory (`dirs::data_dir`), as text;
/// `None` when the platform has none or its path is not valid UTF-8 (a save
/// location the library cannot name exactly). It depends on the platform
/// and the environment, so nothing is stated of it.
#[verifier::external_body]
fn platform_data_dir() -> Option<String> {
    match dirs::data_dir() {
        Some(p) => p.to_str().map(String::from),
        None => None,
    }
}

/// Manages where fractal sessions are saved and how saves are named.
pub struct SessionManager {
    /// Directory holding one `<id>.json` file per save.
    pub saves_dir: String,
}

impl SessionManager {
    /// Session manager for the given platform data directory (`None` when
    /// the platform has none): saves go to
    /// `<data_dir>/ModernFractalViewer/saves`.
    pub fn with_data_dir(data_dir: Option<String>) -> (r: Result<SessionManager, SessionError>)
        ensures
            match data_dir {
                None => r matches Err(SessionError::Storage(msg))
                    && msg@ == "could not determine data directory"@,
                Some(d) => r matches Ok(m)
                    && m.saves_dir@ == path_join(path_join(d@, "ModernFractalViewer"@), "saves"@),
            },
    {
        match data_dir {
            None => Err(SessionError::Storage(String::from_str("could not determine data directory"))),
            Some(d) => {
                let app = join_path(d.as_str(), "ModernFractalViewer");
                let saves = join_path(app.as_str(), "saves");
                Ok(SessionManager { saves_dir: saves })
            },
        }
    }

    /// Session manager for the platform's data directory as the `dirs`
    /// crate finds it (see `with_data_dir`).
    pub fn new() -> (r: Result<SessionManager, SessionError>)
        ensures
            match r {
                Ok(m) => exists|d: Seq<char>| m.saves_dir@ == path_join(path_join(d, "ModernFractalViewer"@), "saves"@),
                Err(e) => e matches SessionError::Storage(msg) && msg@ == "could not determine data directory"@,
            },
    {
        let dir = platform_data_dir();
        Self::with_data_dir(dir)
    }

    /// Session manager for Android: saves go to `<data_path>/saves`.
    pub fn new_android(data_path: String) -> (m: SessionManager)
        ensures
            m.saves_dir@ == path_join(data_path@, "saves"@),
    {
        SessionManager { saves_dir: join_path(data_path.as_str(), "saves") }
    }

    /// A save id from the current time, `YYYYMMDD_HHMMSS` (UTC). Two saves in
    /// the same second get the same text; [`unique_save_id`] numbers it
    /// against the ids already saved.
    pub fn generate_id() -> (id: String)
        ensures
            exists|secs: u64| id@ == save_id_text(secs as nat),
    {
        let secs = unix_time_secs();
        format_save_id(secs)
    }

    /// A save id that no save in `taken` has: the id of the current time,
    /// numbered (`_2`, `_3`, ...) when a save of the same second exists.
    pub fn generate_unique_id(taken: &Vec<String>) -> (id: String)
        requires
            taken.len() < usize::MAX,
        ensures
            !taken@.map_values(|t: String| t@).contains(id@),
            exists|secs: u64, k: nat|
                first_free_number(save_id_text(secs as nat), taken@.map_values(|t: String| t@), k)
                    && id@ == #[trigger] numbered_id(save_id_text(secs as nat), k),
    {
        let base = Self::generate_id();
        unique_save_id(base.as_str(), taken)
    }

    /// The current time as `YYYY-MM-DDTHH:MM:SSZ` (UTC).
    pub fn timestamp_iso8601() -> (ts: String)
        ensures
            exists|secs: u64| ts@ == iso8601_text(secs as nat),
    {
        let secs = unix_time_secs();
        format_iso8601(secs)
    }

    /// Path of the file holding save `id`: `<saves_dir>/<id>.json`.
    pub fn file_path(&self, id: &str) -> (p: String)
        ensures
            p@ == path_join(self.saves_dir@, id@ + ".json"@),
    {
        let name = String::from_str(id).concat(".json");
        join_path(self.saves_dir.as_str(), name.as_str())
    }

    /// Save ids among the entries of the saves directory, newest first.
    pub fn list_saves(&self, file_names: &Vec<String>) -> (ids: Vec<String>)
        ensures
            sorted_by(ids@.map_values(|s: String| s@), |a: Seq<char>, b: Seq<char>| chars_ge(a, b)),
            ids@.map_values(|s: String| s@).to_multiset()
                == save_ids_of(file_names@.map_values(|s: String| s@)).to_multiset(),
            file_names@.map_values(|s: String| s@).no_duplicates() ==> ids@.map_values(|s: String| s@).no_duplicates(),
    {
        collect_save_ids(file_names)
    }
}

/// Numbered variant `k` (from 1) of a save id: the id itself, then
/// `<id>_2`, `<id>_3`, and so on.
pub open spec fn numbered_id(base: Seq<char>, k: nat) -> Seq<char> {
    if k <= 1 { base } else { base + seq!['_'] + decimal(k) }
}

/// `k` is the first number whose variant of `base` is not among `taken`.
pub open spec fn first_free_number(base: Seq<char>, taken: Seq<Seq<char>>, k: nat) -> bool {
    &&& k >= 1
    &&& !taken.contains(numbered_id(base, k))
    &&& forall|j: nat| 1 <= j < k ==> taken.contains(#[trigger] numbered_id(base, j))
}

/// Different numbers give different variants of an id.
proof fn lemma_numbered_id_injective(base: Seq<char>, j: nat, k: nat)
    requires
        j >= 1,
        k >= 1,
        numbered_id(base, j) == numbered_id(base, k),
    ensures
        j == k,
{
    if j >= 2 && k >= 2 {
        let n: int = base.len() as int + 1;
        assert(decimal(j) =~= numbered_id(base, j).skip(n));
        assert(decimal(k) =~= numbered_id(base, k).skip(n));
        lemma_decimal_injective(j, k);
    } else if j >= 2 {
        lemma_decimal_len_pos(j);
        assert(numbered_id(base, j).len() > base.len());
    } else if k >= 2 {
        lemma_decimal_len_pos(k);
        assert(numbered_id(base, k).len() > base.len());
    }
}

/// Among the first `taken.len() + 1` variants of an id at least one is free.
proof fn lemma_free_number_exists(base: Seq<char>, taken: Seq<Seq<char>>)
    ensures
        exists|k: nat| 1 <= k <= taken.len() + 1 && !taken.contains(#[trigger] numbered_id(base, k)),
{
    broadcast use vstd::seq_lib::group_seq_properties;
    if forall|k: nat| 1 <= k <= taken.len() + 1 ==> taken.contains(#[trigger] numbered_id(base, k)) {
        let r = set_int_range(1, taken.len() as int + 2);
        let f = |k: int| numbered_id(base, k as nat);
        lemma_int_range(1, taken.len() as int + 2);
        assert forall|x: int, y: int| r.contains(x) && r.contains(y) && #[trigger] f(x) == #[trigger] f(y) implies x == y by {
            lemma_numbered_id_injective(base, x as nat, y as nat);
        }
        lemma_map_size(r, r.map(f), f);
        assert forall|s: Seq<char>| r.map(f).contains(s) implies taken.to_set().contains(s) by {
            let x = choose|x: int| r.contains(x) && f(x) == s;
            assert(taken.contains(numbered_id(base, x as nat)));
        }
        lemma_len_subset(r.map(f), taken.to_set());
        taken.lemma_cardinality_of_set();
        assert(false);
    }
}

/// Whether some string of `taken` equals `s`.
fn is_taken(s: &String, taken: &Vec<String>) -> (r: bool)
    ensures
        r == taken@.map_values(|t: String| t@).contains(s@),
{
    let ghost tv = taken@.map_values(|t: String| t@);
    let mut i: usize = 0;
    while i < taken.len()
        invariant
            tv == taken@.map_values(|t: String| t@),
            i <= taken.len(),
            forall|j: int| 0 <= j < i ==> tv[j] != s@,
        decreases taken.len() - i,
    {
        if taken[i] == *s {
            assert(tv[i as int] == s@);
            return true;
        }
        i = i + 1;
    }
    false
}

/// A save id made unique among the ids already `taken`: `base` itself when
/// it is free, otherwise `<base>_k` for the smallest `k >= 2` that is free.
pub fn unique_save_id(base: &str, taken: &Vec<String>) -> (id: String)
    requires
        taken.len() < usize::MAX,
    ensures
        !taken@.map_values(|t: String| t@).contains(id@),
        exists|k: nat| first_free_number(base@, taken@.map_values(|t: String| t@), k) && id@ == numbered_id(base@, k),
{
    let ghost tv = taken@.map_values(|t: String| t@);
    proof {
        lemma_free_number_exists(base@, tv);
    }
    let n = taken.len();
    let mut k: usize = 1;
    loop
        invariant
            tv == taken@.map_values(|t: String| t@),
            n == taken.len(),
            n < usize::MAX,
            1 <= k <= n + 1,
            exists|m: nat| 1 <= m <= n + 1 && !tv.contains(#[trigger] numbered_id(base@, m)),
            forall|j: nat| 1 <= j < k ==> tv.contains(#[trigger] numbered_id(base@, j)),
        decreases n + 1 - k,
    {
        let mut cand = String::from_str(base);
        if k >= 2 {
            push_char(&mut cand, '_');
            push_decimal(&mut cand, k as u64);
        }
        assert(cand@ =~= numbered_id(base@, k as nat));
        if !is_taken(&cand, taken) {
            return cand;
        }
        if k == n + 1 {
            let ghost m = choose|m: nat| 1 <= m <= n + 1 && !tv.contains(#[trigger] numbered_id(base@, m));
            assert(tv.contains(numbered_id(base@, m)));
            assert(false);
        }
        k = k + 1;
    }
}

/// Whether a save with the given `version` field can be loaded: version "1"
/// and saves without a version field load directly; any other is refused.
pub fn check_save_version(version: Option<&str>) -> (r: Result<(), SessionError>)
    ensures
        match version {
            None => r is Ok,
            Some(v) => if v@ == "1"@ {
                r is Ok
            } else {
                r matches Err(SessionError::Storage(msg)) && msg@ == "unsupported save version: "@ + v@
            },
        },
{
    match version {
        None => Ok(()),
        Some(v) => {
            let vs = String::from_str(v);
            let one = String::from_str("1");
            if vs == one {
                Ok(())
            } else {
                Err(SessionError::Storage(String::from_str("unsupported save version: ").concat(v)))
            }
        },
    }
}

/// Key-value storage layout used where saves live in a browser's
/// `localStorage`: one entry per save plus an index of save ids.
pub struct LocalStorageBackend;

impl LocalStorageBackend {
    /// Storage key of save `id`: `fractal_save_<id>`.
    pub fn prefixed_key(id: &str) -> (key: String)
        ensures
            key@ == "fractal_save_"@ + id@,
    {
        String::from_str("fractal_save_").concat(id)
    }

    /// Storage key of the save index.
    pub fn index_key() -> (key: String)
        ensures
            key@ == "fractal_save_index"@,
    {
        String::from_str("fractal_save_index")
    }

    /// Index after saving `id`: unchanged when `id` is listed, otherwise `id`
    /// is put first (newest first).
    pub fn index_after_save(index: Vec<String>, id: &str) -> (r: Vec<String>)
        ensures
            index@.map_values(|s: String| s@).contains(id@) ==> r@.map_values(|s: String| s@) == index@.map_values(|s: String| s@),
            !index@.map_values(|s: String| s@).contains(id@) ==> r@.map_values(|s: String| s@)
                == seq![id@] + index@.map_values(|s: String| s@),
    {
        let ghost view = index@.map_values(|s: String| s@);
        let target = String::from_str(id);
        let mut i: usize = 0;
        while i < index.len()
            invariant
                i <= index.len(),
                view == index@.map_values(|s: String| s@),
                forall|k: int| 0 <= k < i ==> view[k] != id@,
                target@ == id@,
            decreases index.len() - i,
        {
            if index[i] == target {
                assert(view[i as int] == id@);
                return index;
            }
            i = i + 1;
        }
        assert(!view.contains(id@));
        let mut r = index;
        r.insert(0, target);
        assert(r@.map_values(|s: String| s@) =~= seq![id@] + view);
        r
    }

    /// Index after deleting `id`: every entry equal to `id` is dropped.
    pub fn index_after_delete(index: &Vec<String>, id: &str) -> (r: Vec<String>)
        ensures
            r@.map_values(|s: String| s@) == index@.map_values(|s: String| s@).filter(|s: Seq<char>| s != id@),
    {
        let ghost view = index@.map_values(|s: String| s@);
        let ghost keep = |s: Seq<char>| s != id@;
        let target = String::from_str(id);
        let mut r: Vec<String> = Vec::new();
        let mut i: usize = 0;
        while i < index.len()
            invariant
                i <= index.len(),
                view == index@.map_values(|s: String| s@),
                keep == (|s: Seq<char>| s != id@),
                target@ == id@,
                r@.map_values(|s: String| s@) == view.take(i as int).filter(keep),
            decreases index.len() - i,
        {
            let ghost before = view.take(i as int);
            assert(view.take(i + 1) =~= before.push(view[i as int]));
            proof { before.lemma_filter_push(view[i as int], keep); }
            if index[i] != target {
                r.push(index[i].clone());
            }
            assert(r@.map_values(|s: String| s@) =~= view.take(i + 1).filter(keep));
            i = i + 1;
        }
        assert(view.take(index.len() as int) =~= view);
        r
    }
}

/// The save index after saving `id` (see `index_after_save`).
pub open spec fn saved_index(index: Seq<Seq<char>>, id: Seq<char>) -> Seq<Seq<char>> {
    if index.contains(id) { index } else { seq![id] + index }
}

/// Law: a saved id is listed in the index, and deleting it again leaves the
/// other entries exactly as they were before the save.
pub proof fn lemma_save_then_delete(index: Seq<Seq<char>>, id: Seq<char>)
    ensures
        saved_index(index, id).contains(id),
        saved_index(index, id).filter(|s: Seq<char>| s != id) == index.filter(|s: Seq<char>| s != id),
{
    let keep = |s: Seq<char>| s != id;
    if !index.contains(id) {
        let one = seq![id];
        assert(saved_index(index, id)[0] == id);
        Seq::filter_distributes_over_add(one, index, keep);
        assert(one.filter(keep) =~= Seq::<Seq<char>>::empty()) by {
            reveal_with_fuel(Seq::filter, 2);
            assert(one.drop_last() =~= Seq::<Seq<char>>::empty());
            assert(one.last() == id);
            assert(!keep(id));
        }
        assert(one.filter(keep) + index.filter(keep) =~= index.filter(keep));
    }
}

/// The name a quick save gets: the fractal's name and the date part (the
/// first ten characters) of the save's ISO 8601 timestamp.
pub open spec fn quick_save_name(t: crate::fractals::FractalType, timestamp: Seq<char>) -> Seq<char> {
    crate::fractals::fractal_name(t) + seq![' '] + timestamp.take(10)
}

/// Name for a quick save of fractal type `t` at `timestamp`
/// (`YYYY-MM-DDTHH:MM:SSZ`), e.g. `Mandelbulb 2024-01-31`.
pub fn quick_save_name_of(t: crate::fractals::FractalType, timestamp: &str) -> (name: String)
    requires
        timestamp@.len() >= 10,
    ensures
        name@ == quick_save_name(t, timestamp@),
{
    let v = chars_of(timestamp);
    let mut s = String::from_str(t.name());
    crate::text::push_char(&mut s, ' ');
    push_chars(&mut s, &v, 0, 10);
    assert(v@.subrange(0, 10) =~= timestamp@.take(10));
    s
}

} // verus!
