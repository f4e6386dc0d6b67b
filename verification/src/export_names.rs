//! Export file names and the resolution choice of the export panel: a file
//! name typed by the user is cleaned of path separators and surrounding
//! whitespace and given the extension of the chosen format.
use vstd::prelude::*;
use crate::session::{last_index_of, find_last, lemma_last_index_bounds};
use crate::strings::{chars_of, string_from_chars, push_chars};
use crate::text::push_char;

verus! {

/// Unicode `White_Space` characters (what `char::is_whitespace` accepts).
pub open spec fn is_ws(c: char) -> bool {
    let u = c as u32;
    ||| 9 <= u <= 13
    ||| u == 32
    ||| u == 0x85
    ||| u == 0xA0
    ||| u == 0x1680
    ||| 0x2000 <= u <= 0x200A
    ||| u == 0x2028
    ||| u == 0x2029
    ||| u == 0x202F
    ||| u == 0x205F
    ||| u == 0x3000
}

/// Whether `c` is Unicode white space.
pub fn is_whitespace(c: char) -> (r: bool)
    ensures
        r == is_ws(c),
{
    let u = c as u32;
    (9 <= u && u <= 13) || u == 32 || u == 0x85 || u == 0xA0 || u == 0x1680 || (0x2000 <= u && u
        <= 0x200A) || u == 0x2028 || u == 0x2029 || u == 0x202F || u == 0x205F || u == 0x3000
}

/// Number of white-space characters `s` starts with.
pub open spec fn leading_ws(s: Seq<char>) -> nat
    decreases s.len(),
{
    if s.len() > 0 && is_ws(s[0]) { 1 + leading_ws(s.skip(1)) } else { 0 }
}

/// Number of white-space characters `s` ends with.
pub open spec fn trailing_ws(s: Seq<char>) -> nat
    decreases s.len(),
{
    if s.len() > 0 && is_ws(s.last()) { 1 + trailing_ws(s.drop_last()) } else { 0 }
}

/// `s` without leading and trailing white space (`str::trim`).
pub open spec fn trim_ws(s: Seq<char>) -> Seq<char> {
    if leading_ws(s) >= s.len() {
        Seq::empty()
    } else {
        s.subrange(leading_ws(s) as int, s.len() - trailing_ws(s))
    }
}

/// ASCII lower case of one character; other characters are unchanged.
pub open spec fn ascii_lower(c: char) -> char {
    if 'A' <= c <= 'Z' { ((c as u32) + 32) as char } else { c }
}

/// Equality up to ASCII case (`str::eq_ignore_ascii_case`).
pub open spec fn eq_ignore_ascii_case(a: Seq<char>, b: Seq<char>) -> bool {
    a.len() == b.len() && forall|i: int| 0 <= i < a.len() ==> ascii_lower(#[trigger] a[i]) == ascii_lower(b[i])
}

/// `name` with its extension set to `ext`: unchanged when the text after
/// its last `.` already is `ext` up to ASCII case, otherwise the text
/// before the last `.` (or all of `name`) followed by `.` and `ext`.
pub open spec fn with_ext(name: Seq<char>, ext: Seq<char>) -> Seq<char> {
    let dot = last_index_of(name, '.');
    if dot >= 0 && eq_ignore_ascii_case(name.skip(dot + 1), ext) {
        name
    } else if dot >= 0 {
        name.take(dot) + seq!['.'] + ext
    } else {
        name + seq!['.'] + ext
    }
}

/// The file name an export uses for the text `raw` the user typed: `/` and
/// `\` removed, surrounding white space trimmed, and the extension `ext`
/// enforced; empty when nothing is left.
pub open spec fn sanitised_name(raw: Seq<char>, ext: Seq<char>) -> Seq<char> {
    let clean = trim_ws(raw.filter(|c: char| c != '/' && c != '\\'));
    if clean.len() == 0 { Seq::empty() } else { with_ext(clean, ext) }
}

proof fn lemma_leading_step(s: Seq<char>, i: int)
    requires
        0 <= i < s.len(),
        leading_ws(s) == i + leading_ws(s.skip(i)),
        is_ws(s[i]),
    ensures
        leading_ws(s) == i + 1 + leading_ws(s.skip(i + 1)),
{
    assert(s.skip(i).skip(1) =~= s.skip(i + 1));
}

proof fn lemma_trailing_step(s: Seq<char>, e: int)
    requires
        0 < e <= s.len(),
        trailing_ws(s) == (s.len() - e) + trailing_ws(s.take(e)),
        is_ws(s[e - 1]),
    ensures
        trailing_ws(s) == (s.len() - (e - 1)) + trailing_ws(s.take(e - 1)),
{
    assert(s.take(e).drop_last() =~= s.take(e - 1));
}

proof fn lemma_leading_stops(s: Seq<char>)
    requires
        leading_ws(s) < s.len(),
    ensures
        !is_ws(s[leading_ws(s) as int]),
    decreases s.len(),
{
    if s.len() > 0 && is_ws(s[0]) {
        lemma_leading_stops(s.skip(1));
        assert(s.skip(1)[leading_ws(s.skip(1)) as int] == s[leading_ws(s) as int]);
    }
}

proof fn lemma_trailing_stops(s: Seq<char>, i: int)
    requires
        0 <= i < s.len(),
        !is_ws(s[i]),
    ensures
        trailing_ws(s) <= s.len() - 1 - i,
    decreases s.len(),
{
    if is_ws(s.last()) {
        assert(s.drop_last()[i] == s[i]);
        lemma_trailing_stops(s.drop_last(), i);
    }
}

/// `s` without leading and trailing white space.
pub fn trim(v: &Vec<char>) -> (r: Vec<char>)
    ensures
        r@ == trim_ws(v@),
{
    let n = v.len();
    let mut start: usize = 0;
    assert(v@.skip(0) =~= v@);
    while start < n && is_whitespace(v[start])
        invariant
            start <= n == v.len(),
            leading_ws(v@) == start + leading_ws(v@.skip(start as int)),
        decreases n - start,
    {
        proof {
            lemma_leading_step(v@, start as int);
        }
        start = start + 1;
    }
    if start == n {
        return Vec::new();
    }
    assert(v@.skip(start as int)[0] == v@[start as int]);
    assert(leading_ws(v@) == start);
    let mut end: usize = n;
    assert(v@.take(n as int) =~= v@);
    while end > 0 && is_whitespace(v[end - 1])
        invariant
            end <= n == v.len(),
            trailing_ws(v@) == (n - end) + trailing_ws(v@.take(end as int)),
        decreases end,
    {
        proof {
            lemma_trailing_step(v@, end as int);
        }
        end = end - 1;
    }
    proof {
        if end > 0 {
            assert(v@.take(end as int).last() == v@[end - 1]);
        }
        assert(trailing_ws(v@) == n - end);
        lemma_trailing_stops(v@, start as int);
    }
    let mut r: Vec<char> = Vec::new();
    let mut i = start;
    while i < end
        invariant
            start <= i <= end <= n == v.len(),
            r@ =~= v@.subrange(start as int, i as int),
        decreases end - i,
    {
        r.push(v[i]);
        i = i + 1;
    }
    r
}

fn lower_ascii(c: char) -> (r: char)
    ensures
        r == ascii_lower(c),
{
    if 'A' <= c && c <= 'Z' {
        let b: u8 = (c as u32) as u8;
        ((b + 32) as char)
    } else {
        c
    }
}

/// Whether `a[from..]` equals `b` up to ASCII case.
fn tail_eq_ignore_ascii_case(a: &Vec<char>, from: usize, b: &Vec<char>) -> (r: bool)
    requires
        from <= a.len(),
    ensures
        r == eq_ignore_ascii_case(a@.skip(from as int), b@),
{
    if a.len() - from != b.len() {
        return false;
    }
    let mut i: usize = 0;
    while i < b.len()
        invariant
            from <= a.len(),
            a.len() - from == b.len(),
            i <= b.len(),
            forall|k: int| 0 <= k < i ==> ascii_lower(#[trigger] a@.skip(from as int)[k]) == ascii_lower(b@[k]),
        decreases b.len() - i,
    {
        if lower_ascii(a[from + i]) != lower_ascii(b[i]) {
            assert(a@.skip(from as int)[i as int] == a@[from + i]);
            return false;
        }
        assert(a@.skip(from as int)[i as int] == a@[from + i]);
        i = i + 1;
    }
    true
}

/// `name` with the extension `ext` enforced (see `with_ext`).
pub fn set_extension(name: &str, ext: &str) -> (r: String)
    ensures
        r@ == with_ext(name@, ext@),
{
    let v = chars_of(name);
    let e = chars_of(ext);
    proof {
        lemma_last_index_bounds(v@, '.');
    }
    match find_last(&v, '.') {
        Some(dot) => {
            assert(dot < v.len());
            if tail_eq_ignore_ascii_case(&v, dot + 1, &e) {
                string_from_chars(&v)
            } else {
                let mut s = String::new();
                push_chars(&mut s, &v, 0, dot);
                push_char(&mut s, '.');
                push_chars(&mut s, &e, 0, e.len());
                assert(s@ =~= with_ext(name@, ext@));
                s
            }
        },
        None => {
            let mut s = String::new();
            push_chars(&mut s, &v, 0, v.len());
            push_char(&mut s, '.');
            push_chars(&mut s, &e, 0, e.len());
            assert(s@ =~= with_ext(name@, ext@));
            s
        },
    }
}

/// Strips path separators from a candidate file name, trims it and
/// enforces the required extension; empty when nothing is left.
pub fn sanitise_export_filename(raw: &str, ext: &str) -> (r: String)
    ensures
        r@ == sanitised_name(raw@, ext@),
{
    let v = chars_of(raw);
    let mut kept: Vec<char> = Vec::new();
    let mut i: usize = 0;
    assert(v@.take(0).filter(|c: char| c != '/' && c != '\\') =~= Seq::<char>::empty()) by {
        reveal(Seq::filter);
    }
    while i < v.len()
        invariant
            i <= v.len(),
            kept@ == v@.take(i as int).filter(|c: char| c != '/' && c != '\\'),
        decreases v.len() - i,
    {
        let c = v[i];
        proof {
            reveal(Seq::filter);
            assert(v@.take(i + 1).drop_last() =~= v@.take(i as int));
            assert(v@.take(i + 1).last() == c);
        }
        if c != '/' && c != '\\' {
            kept.push(c);
        }
        i = i + 1;
    }
    assert(v@.take(v.len() as int) =~= v@);
    let clean = trim(&kept);
    if clean.len() == 0 {
        return String::new();
    }
    let s = string_from_chars(&clean);
    set_extension(s.as_str(), ext)
}

/// The export resolution after the user picks `selected` in the resolution
/// menu, where `0` stands for "Custom…": picking a preset or a custom value
/// takes it; picking "Custom…" while a preset is active moves to the next
/// value that is no preset (one or two steps up), so the custom field
/// appears.
pub open spec fn resolution_after_choice(current: u32, selected: u32, presets: Seq<u32>) -> int {
    if selected == 0 && presets.contains(current) {
        if presets.contains((current + 1) as u32) { current + 2 } else { current + 1 }
    } else if selected != 0 {
        selected as int
    } else {
        current as int
    }
}

fn contains_u32(v: &Vec<u32>, x: u32) -> (r: bool)
    ensures
        r == v@.contains(x),
{
    let mut i: usize = 0;
    while i < v.len()
        invariant
            i <= v.len(),
            forall|k: int| 0 <= k < i ==> v@[k] != x,
        decreases v.len() - i,
    {
        if v[i] == x {
            assert(v@[i as int] == x);
            return true;
        }
        i = i + 1;
    }
    false
}

/// New export resolution after a choice in the resolution menu (see
/// `resolution_after_choice`).
pub fn choose_resolution(current: u32, selected: u32, presets: &Vec<u32>) -> (r: u32)
    requires
        current + 2 <= u32::MAX,
    ensures
        r as int == resolution_after_choice(current, selected, presets@),
{
    let is_preset = contains_u32(presets, current);
    if selected == 0 && is_preset {
        let next = current + 1;
        if contains_u32(presets, next) {
            next + 1
        } else {
            next
        }
    } else if selected != 0 {
        selected
    } else {
        current
    }
}

/// The resolution typed into the custom field, clamped to `min..=max`
/// after conversion to `u32` (a negative entry wraps around first, as an
/// `as u32` cast does).
pub fn clamp_custom_resolution(value: i32, min: i32, max: i32) -> (r: u32)
    requires
        min as u32 <= max as u32,
    ensures
        r == (if (value as u32) < (min as u32) {
            min as u32
        } else if (value as u32) > (max as u32) {
            max as u32
        } else {
            value as u32
        }),
{
    let v = value as u32;
    let lo = min as u32;
    let hi = max as u32;
    if v < lo {
        lo
    } else if v > hi {
        hi
    } else {
        v
    }
}

proof fn lemma_last_index_after_append(s: Seq<char>, ext: Seq<char>)
    requires
        !ext.contains('.'),
    ensures
        last_index_of(s + seq!['.'] + ext, '.') == s.len(),
    decreases ext.len(),
{
    let t = s + seq!['.'] + ext;
    if ext.len() == 0 {
        assert(t.last() == '.');
    } else {
        assert(t.last() == ext.last());
        assert(ext.drop_last().len() < ext.len());
        assert(!ext.drop_last().contains('.')) by {
            if ext.drop_last().contains('.') {
                let i = choose|i: int| 0 <= i < ext.drop_last().len() && ext.drop_last()[i] == '.';
                assert(ext[i] == '.');
            }
        }
        assert(ext.last() != '.') by {
            assert(ext[ext.len() - 1] == ext.last());
        }
        lemma_last_index_after_append(s, ext.drop_last());
        assert(t.drop_last() =~= s + seq!['.'] + ext.drop_last());
    }
}

proof fn lemma_eq_ignore_case_refl(a: Seq<char>)
    ensures
        eq_ignore_ascii_case(a, a),
{
}

/// Law: an export file name never holds a path separator, and a non-empty
/// one ends in `.` and the required extension (up to ASCII case), whatever
/// the user typed; the extension itself must hold no `.`, `/` or `\`.
pub proof fn lemma_sanitised_name_is_safe(raw: Seq<char>, ext: Seq<char>)
    requires
        !ext.contains('.'),
        !ext.contains('/'),
        !ext.contains('\\'),
    ensures
        !sanitised_name(raw, ext).contains('/'),
        !sanitised_name(raw, ext).contains('\\'),
        sanitised_name(raw, ext).len() > 0 ==> {
            let name = sanitised_name(raw, ext);
            let dot = last_index_of(name, '.');
            dot >= 0 && eq_ignore_ascii_case(name.skip(dot + 1), ext)
        },
{
    let keep = |c: char| c != '/' && c != '\\';
    let filtered = raw.filter(keep);
    let clean = trim_ws(filtered);
    assert forall|i: int| 0 <= i < filtered.len() implies #[trigger] filtered[i] != '/' && filtered[i] != '\\' by {
        broadcast use vstd::seq_lib::group_filter_ensures;
        assert(keep(filtered[i]));
    }
    if leading_ws(filtered) < filtered.len() {
        lemma_leading_stops(filtered);
        lemma_trailing_stops(filtered, leading_ws(filtered) as int);
    }
    assert forall|i: int| 0 <= i < clean.len() implies #[trigger] clean[i] != '/' && clean[i] != '\\' by {
        if leading_ws(filtered) < filtered.len() {
            assert(clean[i] == filtered[i + leading_ws(filtered)]);
        }
    }
    if clean.len() > 0 {
        let name = sanitised_name(raw, ext);
        let dot = last_index_of(clean, '.');
        crate::session::lemma_last_index_bounds(clean, '.');
        if dot >= 0 && eq_ignore_ascii_case(clean.skip(dot + 1), ext) {
            assert(name == clean);
        } else if dot >= 0 {
            let stem = clean.take(dot);
            assert(name == stem + seq!['.'] + ext);
            lemma_last_index_after_append(stem, ext);
            assert(name.skip(dot + 1) =~= ext);
            lemma_eq_ignore_case_refl(ext);
            assert forall|i: int| 0 <= i < name.len() implies name[i] != '/' && name[i] != '\\' by {
                if i < dot {
                    assert(name[i] == clean[i]);
                } else if i > dot {
                    assert(name[i] == ext[i - dot - 1]);
                }
            }
        } else {
            assert(name == clean + seq!['.'] + ext);
            lemma_last_index_after_append(clean, ext);
            assert(name.skip(clean.len() as int + 1) =~= ext);
            lemma_eq_ignore_case_refl(ext);
            assert forall|i: int| 0 <= i < name.len() implies name[i] != '/' && name[i] != '\\' by {
                if i < clean.len() {
                    assert(name[i] == clean[i]);
                } else if i > clean.len() {
                    assert(name[i] == ext[i - clean.len() - 1]);
                }
            }
        }
        assert(!name.contains('/') && !name.contains('\\')) by {
            if name.contains('/') {
                let i = choose|i: int| 0 <= i < name.len() && name[i] == '/';
            }
            if name.contains('\\') {
                let i = choose|i: int| 0 <= i < name.len() && name[i] == '\\';
            }
        }
    } else {
        assert(sanitised_name(raw, ext) =~= Seq::<char>::empty());
    }
}

proof fn lemma_trailing_stops_at_end(s: Seq<char>)
    requires
        trailing_ws(s) < s.len(),
    ensures
        !is_ws(s[s.len() - trailing_ws(s) - 1]),
    decreases s.len(),
{
    if s.len() > 0 && is_ws(s.last()) {
        lemma_trailing_stops_at_end(s.drop_last());
        assert(s.drop_last()[s.drop_last().len() - trailing_ws(s.drop_last()) - 1] == s[s.len() - trailing_ws(s) - 1]);
    }
}

proof fn lemma_filter_keeps_all(s: Seq<char>)
    requires
        forall|i: int| 0 <= i < s.len() ==> #[trigger] s[i] != '/' && s[i] != '\\',
    ensures
        s.filter(|c: char| c != '/' && c != '\\') == s,
    decreases s.len(),
{
    reveal(Seq::filter);
    if s.len() > 0 {
        lemma_filter_keeps_all(s.drop_last());
        assert(s.drop_last().push(s.last()) =~= s);
    } else {
        assert(s =~= Seq::<char>::empty());
    }
}

proof fn lemma_trim_keeps_trimmed(s: Seq<char>)
    requires
        s.len() > 0,
        !is_ws(s[0]),
        !is_ws(s.last()),
    ensures
        trim_ws(s) == s,
{
    assert(leading_ws(s) == 0);
    assert(trailing_ws(s) == 0);
    assert(s.subrange(0, s.len() as int) =~= s);
}

/// Law: an export file name is settled. It is empty exactly when the typed
/// text, with `/` and `\` removed, is blank; it has no surrounding white
/// space; and cleaning it again gives it back unchanged. The extension must
/// be non-empty and hold no `.`, `/`, `\` or white space.
pub proof fn lemma_sanitised_name_is_settled(raw: Seq<char>, ext: Seq<char>)
    requires
        ext.len() > 0,
        !ext.contains('.'),
        !ext.contains('/'),
        !ext.contains('\\'),
        forall|i: int| 0 <= i < ext.len() ==> !is_ws(#[trigger] ext[i]),
    ensures
        sanitised_name(raw, ext).len() == 0 <==> trim_ws(raw.filter(|c: char| c != '/' && c != '\\')).len() == 0,
        trim_ws(sanitised_name(raw, ext)) == sanitised_name(raw, ext),
        sanitised_name(sanitised_name(raw, ext), ext) == sanitised_name(raw, ext),
{
    let filtered = raw.filter(|c: char| c != '/' && c != '\\');
    let clean = trim_ws(filtered);
    let name = sanitised_name(raw, ext);
    lemma_sanitised_name_is_safe(raw, ext);
    if clean.len() == 0 {
        assert(name =~= Seq::<char>::empty());
        reveal(Seq::filter);
        assert(name.filter(|c: char| c != '/' && c != '\\') =~= Seq::<char>::empty());
        assert(trim_ws(name) =~= name);
    } else {
        let lead = leading_ws(filtered) as int;
        let trail = trailing_ws(filtered) as int;
        assert(lead < filtered.len());
        lemma_leading_stops(filtered);
        lemma_trailing_stops(filtered, lead);
        lemma_trailing_stops_at_end(filtered);
        assert(clean[0] == filtered[lead]);
        assert(clean.last() == filtered[filtered.len() - trail - 1]);
        let dot = last_index_of(clean, '.');
        crate::session::lemma_last_index_bounds(clean, '.');
        if dot >= 0 && eq_ignore_ascii_case(clean.skip(dot + 1), ext) {
            assert(name == clean);
        } else if dot >= 0 {
            assert(name == clean.take(dot) + seq!['.'] + ext);
            assert(name.last() == ext.last());
            assert(!is_ws(ext[ext.len() - 1]));
            if dot > 0 {
                assert(name[0] == clean[0]);
            } else {
                assert(name[0] == '.');
            }
        } else {
            assert(name == clean + seq!['.'] + ext);
            assert(name[0] == clean[0]);
            assert(name.last() == ext.last());
            assert(!is_ws(ext[ext.len() - 1]));
        }
        assert(name.len() > 0);
        lemma_trim_keeps_trimmed(name);
        assert forall|i: int| 0 <= i < name.len() implies #[trigger] name[i] != '/' && name[i] != '\\' by {
            if name[i] == '/' {
                assert(name.contains('/'));
            }
            if name[i] == '\\' {
                assert(name.contains('\\'));
            }
        }
        lemma_filter_keeps_all(name);
        assert(sanitised_name(name, ext) == with_ext(name, ext));
    }
}

} // verus!
