//! The benchmark matrix: one scenario per fractal type, resolution, color
//! mode and lighting model, and the filtering and resolution override that
//! the benchmark command line applies to it.
use vstd::prelude::*;
use crate::fractals::{all_fractal_types, fractal_name, FractalType};
use crate::text::{decimal, push_decimal};
use crate::strings::{chars_of, string_from_chars};

verus! {

/// What distinguishes one benchmark scenario from another; the render
/// settings of a scenario follow from these (the fractal's default
/// parameters, the default camera, and default ray-march settings).
pub struct ScenarioSpec {
    /// Display name, `"<fractal> @ <w>x<h> / <color> / <lighting>"`.
    pub name: String,
    pub fractal: FractalType,
    pub width: u32,
    pub height: u32,
    /// Color mode: 1 orbit trap, 2 iteration, 3 normal, 4 combined.
    pub color_mode: u32,
    /// Lighting model: 0 Blinn-Phong, 1 PBR.
    pub lighting_model: u32,
}

/// The plain values of a scenario.
pub open spec fn scenario_view(s: ScenarioSpec) -> (Seq<char>, FractalType, u32, u32, u32, u32) {
    (s.name@, s.fractal, s.width, s.height, s.color_mode, s.lighting_model)
}

/// The default resolutions, in order.
pub open spec fn default_resolution(r: int) -> (u32, u32) {
    if r == 0 {
        (256, 256)
    } else if r == 1 {
        (512, 512)
    } else if r == 2 {
        (1024, 1024)
    } else {
        (1920, 1080)
    }
}

/// Name of a color mode in scenario names.
pub open spec fn color_mode_name(cm: u32) -> Seq<char> {
    if cm == 1 {
        "orbit-trap"@
    } else if cm == 2 {
        "iteration"@
    } else if cm == 3 {
        "normal"@
    } else if cm == 4 {
        "combined"@
    } else {
        "solid"@
    }
}

/// Name of a lighting model in scenario names.
pub open spec fn lighting_name(lm: u32) -> Seq<char> {
    if lm == 0 { "Blinn-Phong"@ } else { "PBR"@ }
}

/// `"<w>x<h>"`.
pub open spec fn resolution_text(w: u32, h: u32) -> Seq<char> {
    decimal(w as nat) + seq!['x'] + decimal(h as nat)
}

/// `"<fractal> @ <w>x<h> / <color> / <lighting>"`.
pub open spec fn scenario_name(t: FractalType, w: u32, h: u32, cm: u32, lm: u32) -> Seq<char> {
    fractal_name(t) + " @ "@ + resolution_text(w, h) + " / "@ + color_mode_name(cm) + " / "@
        + lighting_name(lm)
}

/// Scenario `i` of the default matrix: fractal types outermost, then
/// resolutions, color modes 1..=4, and lighting models 0..=1 innermost.
pub open spec fn default_scenario(i: int) -> (Seq<char>, FractalType, u32, u32, u32, u32) {
    let t = all_fractal_types()[i / 32];
    let (w, h) = default_resolution((i / 8) % 4);
    let cm = (1 + (i / 2) % 4) as u32;
    let lm = (i % 2) as u32;
    (scenario_name(t, w, h, cm, lm), t, w, h, cm, lm)
}

fn resolution_at(r: usize) -> (wh: (u32, u32))
    requires
        r < 4,
    ensures
        wh == default_resolution(r as int),
{
    if r == 0 {
        (256, 256)
    } else if r == 1 {
        (512, 512)
    } else if r == 2 {
        (1024, 1024)
    } else {
        (1920, 1080)
    }
}

fn color_mode_str(cm: u32) -> (s: &'static str)
    ensures
        s@ == color_mode_name(cm),
{
    if cm == 1 {
        "orbit-trap"
    } else if cm == 2 {
        "iteration"
    } else if cm == 3 {
        "normal"
    } else if cm == 4 {
        "combined"
    } else {
        "solid"
    }
}

fn lighting_str(lm: u32) -> (s: &'static str)
    ensures
        s@ == lighting_name(lm),
{
    if lm == 0 { "Blinn-Phong" } else { "PBR" }
}

/// Appends `"<w>x<h>"`.
fn push_resolution(s: &mut String, w: u32, h: u32)
    ensures
        final(s)@ == old(s)@ + resolution_text(w, h),
{
    push_decimal(s, w as u64);
    s.append("x");
    push_decimal(s, h as u64);
    proof {
        reveal_strlit("x");
    }
    assert(final(s)@ =~= old(s)@ + resolution_text(w, h));
}

/// The display name of a scenario.
pub fn make_scenario_name(t: FractalType, w: u32, h: u32, cm: u32, lm: u32) -> (name: String)
    ensures
        name@ == scenario_name(t, w, h, cm, lm),
{
    let mut s = String::from_str(t.name());
    s.append(" @ ");
    push_resolution(&mut s, w, h);
    s.append(" / ");
    s.append(color_mode_str(cm));
    s.append(" / ");
    s.append(lighting_str(lm));
    assert(s@ =~= scenario_name(t, w, h, cm, lm));
    s
}

/// The default benchmark matrix: 6 fractal types x 4 resolutions x 4
/// color modes x 2 lighting models.
pub fn default_scenarios() -> (v: Vec<ScenarioSpec>)
    ensures
        v.len() == 192,
        forall|i: int| 0 <= i < 192 ==> #[trigger] scenario_view(v@[i]) == default_scenario(i),
{
    let types = FractalType::all();
    let mut v: Vec<ScenarioSpec> = Vec::new();
    let mut fi: usize = 0;
    while fi < 6
        invariant
            types@ == all_fractal_types(),
            fi <= 6,
            v.len() == 32 * fi,
            forall|i: int| 0 <= i < v.len() ==> #[trigger] scenario_view(v@[i]) == default_scenario(i),
        decreases 6 - fi,
    {
        let t = types[fi];
        let mut ri: usize = 0;
        while ri < 4
            invariant
                types@ == all_fractal_types(),
                fi < 6,
                t == all_fractal_types()[fi as int],
                ri <= 4,
                v.len() == 32 * fi + 8 * ri,
                forall|i: int| 0 <= i < v.len() ==> #[trigger] scenario_view(v@[i]) == default_scenario(i),
            decreases 4 - ri,
        {
            let (w, h) = resolution_at(ri);
            let mut cm: u32 = 1;
            while cm <= 4
                invariant
                    fi < 6,
                    ri < 4,
                    t == all_fractal_types()[fi as int],
                    (w, h) == default_resolution(ri as int),
                    1 <= cm <= 5,
                    v.len() == 32 * fi + 8 * ri + 2 * (cm - 1),
                    forall|i: int| 0 <= i < v.len() ==> #[trigger] scenario_view(v@[i]) == default_scenario(i),
                decreases 5 - cm,
            {
                let mut lm: u32 = 0;
                while lm < 2
                    invariant
                        fi < 6,
                        ri < 4,
                        1 <= cm <= 4,
                        t == all_fractal_types()[fi as int],
                        (w, h) == default_resolution(ri as int),
                        lm <= 2,
                        v.len() == 32 * fi + 8 * ri + 2 * (cm - 1) + lm,
                        forall|i: int| 0 <= i < v.len() ==> #[trigger] scenario_view(v@[i]) == default_scenario(i),
                    decreases 2 - lm,
                {
                    let name = make_scenario_name(t, w, h, cm, lm);
                    let ghost k = v.len() as int;
                    v.push(ScenarioSpec { name, fractal: t, width: w, height: h, color_mode: cm, lighting_model: lm });
                    proof {
                        assert(k / 32 == fi as int);
                        assert((k / 8) % 4 == ri as int);
                        assert(1 + (k / 2) % 4 == cm as int);
                        assert(k % 2 == lm as int);
                        assert(scenario_view(v@[k]) == default_scenario(k));
                    }
                    lm = lm + 1;
                }
                cm = cm + 1;
            }
            ri = ri + 1;
        }
        fi = fi + 1;
    }
    v
}

/// Lower case of a string as `str::to_lowercase` maps it (Unicode lower
/// case mapping, independent of locale).
pub uninterp spec fn lowercase(s: Seq<char>) -> Seq<char>;

/// Whether every character of `s` is ASCII.
pub open spec fn all_ascii(s: Seq<char>) -> bool {
    forall|i: int| 0 <= i < s.len() ==> (#[trigger] s[i] as u32) < 128
}

/// ASCII lower case of one character: `A`..=`Z` become `a`..=`z`, every
/// other character stays.
pub open spec fn ascii_lower(c: char) -> char {
    if 'A' <= c && c <= 'Z' { ((c as u32) + 32) as char } else { c }
}

/// The lower case that the scenario filter compares: letter by letter for
/// ASCII text, the Unicode mapping otherwise.
pub open spec fn lowered(s: Seq<char>) -> Seq<char> {
    if all_ascii(s) { s.map_values(|c: char| ascii_lower(c)) } else { lowercase(s) }
}

/// Unicode lower case of a string (`str::to_lowercase`). Of an ASCII string
/// this is the letter-by-letter ASCII lower case, as Unicode maps no ASCII
/// character outside ASCII; of other strings the result is only named.
#[verifier::external_body]
fn to_lowercase(s: &str) -> (r: String)
    ensures
        r@ == lowercase(s@),
        all_ascii(s@) ==> r@ == s@.map_values(|c: char| ascii_lower(c)),
{
    s.to_lowercase()
}

/// Whether `needle` occurs in `hay` as a contiguous run.
pub open spec fn has_substring(hay: Seq<char>, needle: Seq<char>) -> bool {
    exists|i: int| 0 <= i && i + needle.len() <= hay.len() && #[trigger] hay.subrange(i, i + needle.len()) == needle
}

/// `s` with every occurrence of the non-empty `from` replaced by `to`,
/// scanning left to right without overlaps (`str::replace`).
pub open spec fn replace_all(s: Seq<char>, from: Seq<char>, to: Seq<char>) -> Seq<char>
    decreases s.len(),
{
    if from.len() == 0 || s.len() < from.len() {
        s
    } else if s.take(from.len() as int) == from {
        to + replace_all(s.skip(from.len() as int), from, to)
    } else {
        seq![s[0]] + replace_all(s.skip(1), from, to)
    }
}

fn matches_at(hay: &Vec<char>, i: usize, needle: &Vec<char>) -> (r: bool)
    requires
        i + needle.len() <= hay.len(),
    ensures
        r == (hay@.subrange(i as int, i + needle.len()) == needle@),
{
    let mut k: usize = 0;
    while k < needle.len()
        invariant
            i + needle.len() <= hay.len(),
            k <= needle.len(),
            forall|j: int| 0 <= j < k ==> hay@[i + j] == needle@[j],
        decreases needle.len() - k,
    {
        if hay[i + k] != needle[k] {
            assert(hay@.subrange(i as int, i + needle.len())[k as int] != needle@[k as int]);
            return false;
        }
        k = k + 1;
    }
    assert(hay@.subrange(i as int, i + needle.len()) =~= needle@);
    true
}

/// Whether `needle` occurs in `hay` (`str::contains`).
pub fn contains_substring(hay: &str, needle: &str) -> (r: bool)
    ensures
        r == has_substring(hay@, needle@),
{
    let h = chars_of(hay);
    let n = chars_of(needle);
    if n.len() == 0 {
        let ghost z: int = 0;
        assert(hay@.subrange(z, z + needle@.len()) =~= needle@);
        return true;
    }
    if n.len() > h.len() {
        return false;
    }
    let last = h.len() - n.len();
    let mut i: usize = 0;
    while i <= last
        invariant
            h@ == hay@,
            n@ == needle@,
            last == h.len() - n.len(),
            1 <= n.len() <= h.len(),
            i <= last + 1,
            forall|j: int| 0 <= j < i ==> #[trigger] h@.subrange(j, j + n.len()) != n@,
        decreases last + 1 - i,
    {
        if matches_at(&h, i, &n) {
            return true;
        }
        i = i + 1;
    }
    false
}

/// `s` with every occurrence of the non-empty `from` replaced by `to`.
pub fn replace_all_str(s: &str, from: &str, to: &str) -> (r: String)
    requires
        from@.len() > 0,
    ensures
        r@ == replace_all(s@, from@, to@),
{
    let v = chars_of(s);
    let f = chars_of(from);
    let t = chars_of(to);
    let mut out: Vec<char> = Vec::new();
    let mut i: usize = 0;
    assert(v@.skip(0) =~= v@);
    while i < v.len()
        invariant
            v@ == s@,
            f@ == from@,
            t@ == to@,
            f.len() > 0,
            i <= v.len(),
            replace_all(s@, from@, to@) == out@ + replace_all(v@.skip(i as int), f@, t@),
        decreases v.len() - i,
    {
        let ghost rest = v@.skip(i as int);
        if f.len() <= v.len() - i && matches_at(&v, i, &f) {
            proof {
                assert(rest.take(f.len() as int) =~= v@.subrange(i as int, i + f.len()));
                assert(rest.skip(f.len() as int) =~= v@.skip(i + f.len()));
            }
            let mut k: usize = 0;
            let ghost out0 = out@;
            while k < t.len()
                invariant
                    k <= t.len(),
                    out@ =~= out0 + t@.take(k as int),
                decreases t.len() - k,
            {
                out.push(t[k]);
                k = k + 1;
                assert(out@ =~= out0 + t@.take(k as int));
            }
            assert(t@.take(t.len() as int) =~= t@);
            assert(out@ + replace_all(v@.skip(i + f.len()), f@, t@) =~= out0 + replace_all(rest, f@, t@));
            i = i + f.len();
        } else {
            proof {
                if i + f.len() <= v.len() {
                    assert(rest.take(f.len() as int) =~= v@.subrange(i as int, i + f.len()));
                }
                assert(rest.skip(1) =~= v@.skip(i + 1));
                assert(rest[0] == v@[i as int]);
            }
            let ghost out0 = out@;
            out.push(v[i]);
            assert(out@ + replace_all(v@.skip(i + 1), f@, t@) =~= out0 + replace_all(rest, f@, t@));
            i = i + 1;
        }
    }
    proof {
        assert(v@.skip(i as int).len() == 0);
        assert(out@ + replace_all(v@.skip(i as int), f@, t@) =~= out@);
    }
    string_from_chars(&out)
}

/// Whether a scenario passes the filter: its fractal's name contains the
/// fractal filter (both lower-cased), its color mode and lighting model
/// match when given, and its resolution is `first` when a resolution
/// override is requested.
pub open spec fn keep_scenario(
    s: (Seq<char>, FractalType, u32, u32, u32, u32),
    fractal: Option<Seq<char>>,
    first: Option<(u32, u32)>,
    color_mode: Option<u32>,
    lighting: Option<u32>,
) -> bool {
    &&& fractal is Some ==> has_substring(lowered(fractal_name(s.1)), lowered(fractal->0))
    &&& color_mode is Some ==> s.4 == color_mode->0
    &&& lighting is Some ==> s.5 == lighting->0
    &&& first is Some ==> (s.2, s.3) == first->0
}

/// A kept scenario after the resolution override, if one is requested.
pub open spec fn adjust_scenario(
    s: (Seq<char>, FractalType, u32, u32, u32, u32),
    resolution: Option<(u32, u32)>,
) -> (Seq<char>, FractalType, u32, u32, u32, u32) {
    match resolution {
        Some((w, h)) => (
            replace_all(s.0, resolution_text(s.2, s.3), resolution_text(w, h)),
            s.1,
            w,
            h,
            s.4,
            s.5,
        ),
        None => s,
    }
}

/// The first `k` scenarios filtered and adjusted.
pub open spec fn filtered_scenarios(
    views: Seq<(Seq<char>, FractalType, u32, u32, u32, u32)>,
    k: nat,
    fractal: Option<Seq<char>>,
    first: Option<(u32, u32)>,
    color_mode: Option<u32>,
    lighting: Option<u32>,
    resolution: Option<(u32, u32)>,
) -> Seq<(Seq<char>, FractalType, u32, u32, u32, u32)>
    decreases k,
{
    if k == 0 {
        Seq::empty()
    } else {
        filtered_scenarios(views, (k - 1) as nat, fractal, first, color_mode, lighting, resolution) + if keep_scenario(
            views[k - 1],
            fractal,
            first,
            color_mode,
            lighting,
        ) {
            seq![adjust_scenario(views[k - 1], resolution)]
        } else {
            Seq::empty()
        }
    }
}

/// Plain values of a list of scenarios.
pub open spec fn scenario_views(v: Seq<ScenarioSpec>) -> Seq<(Seq<char>, FractalType, u32, u32, u32, u32)> {
    v.map_values(|s: ScenarioSpec| scenario_view(s))
}

/// Filters scenarios by optional criteria. When `resolution` is given,
/// only the scenarios at the first scenario's resolution are kept (one per
/// fractal/color/lighting combination of the default matrix) and they are
/// moved to the requested size, their names updated to match.
pub fn filter_scenarios(
    scenarios: Vec<ScenarioSpec>,
    fractal: Option<&str>,
    resolution: Option<(u32, u32)>,
    color_mode: Option<u32>,
    lighting: Option<u32>,
) -> (r: Vec<ScenarioSpec>)
    ensures
        scenario_views(r@) == filtered_scenarios(
            scenario_views(scenarios@),
            scenarios.len() as nat,
            match fractal { Some(f) => Some(f@), None => None },
            if resolution is Some && scenarios.len() > 0 {
                Some((scenarios@[0].width, scenarios@[0].height))
            } else {
                None
            },
            color_mode,
            lighting,
            resolution,
        ),
{
    let ghost fq = match fractal { Some(f) => Some(f@), None => None::<Seq<char>> };
    let first: Option<(u32, u32)> = if resolution.is_some() && scenarios.len() > 0 {
        Some((scenarios[0].width, scenarios[0].height))
    } else {
        None
    };
    let needle: Option<String> = match fractal {
        Some(f) => Some(to_lowercase(f)),
        None => None,
    };
    let ghost views = scenario_views(scenarios@);
    let mut out: Vec<ScenarioSpec> = Vec::new();
    let mut i: usize = 0;
    while i < scenarios.len()
        invariant
            views == scenario_views(scenarios@),
            fq == match fractal { Some(f) => Some(f@), None => None::<Seq<char>> },
            match needle { Some(nd) => fq is Some && nd@ == lowered(fq->0), None => fq is None },
            i <= scenarios.len(),
            scenario_views(out@) == filtered_scenarios(views, i as nat, fq, first, color_mode, lighting, resolution),
        decreases scenarios.len() - i,
    {
        let s = &scenarios[i];
        assert(views[i as int] == scenario_view(scenarios@[i as int]));
        let mut keep = true;
        match &needle {
            Some(nd) => {
                let lname = to_lowercase(s.fractal.name());
                if !contains_substring(lname.as_str(), nd.as_str()) {
                    keep = false;
                }
            },
            None => {},
        }
        match color_mode {
            Some(cm) => {
                if s.color_mode != cm {
                    keep = false;
                }
            },
            None => {},
        }
        match lighting {
            Some(lm) => {
                if s.lighting_model != lm {
                    keep = false;
                }
            },
            None => {},
        }
        match first {
            Some((fw, fh)) => {
                if s.width != fw || s.height != fh {
                    keep = false;
                }
            },
            None => {},
        }
        let ghost before = out@;
        if keep {
            let adjusted = match resolution {
                Some((w, h)) => {
                    let mut old_res = String::new();
                    push_resolution(&mut old_res, s.width, s.height);
                    let mut new_res = String::new();
                    push_resolution(&mut new_res, w, h);
                    proof {
                        crate::text::lemma_decimal_len_pos(s.width as nat);
                    }
                    let name = replace_all_str(s.name.as_str(), old_res.as_str(), new_res.as_str());
                    ScenarioSpec {
                        name,
                        fractal: s.fractal,
                        width: w,
                        height: h,
                        color_mode: s.color_mode,
                        lighting_model: s.lighting_model,
                    }
                },
                None => ScenarioSpec {
                    name: s.name.clone(),
                    fractal: s.fractal,
                    width: s.width,
                    height: s.height,
                    color_mode: s.color_mode,
                    lighting_model: s.lighting_model,
                },
            };
            out.push(adjusted);
        }
        proof {
            assert(scenario_views(out@) =~= filtered_scenarios(views, (i + 1) as nat, fq, first, color_mode, lighting, resolution));
        }
        i = i + 1;
    }
    out
}

/// Whether `c` is an ASCII digit.
pub open spec fn is_digit(c: char) -> bool {
    '0' <= c <= '9'
}

/// Value of a string of decimal digits.
pub open spec fn digits_value(s: Seq<char>) -> int
    decreases s.len(),
{
    if s.len() == 0 {
        0
    } else {
        digits_value(s.drop_last()) * 10 + (s.last() as int - '0' as int)
    }
}

/// `u32` parsing as `str::parse::<u32>` does it: an optional `+`, then one
/// or more decimal digits whose value fits in 32 bits.
pub open spec fn parsed_u32(s: Seq<char>) -> Option<u32> {
    parsed_digits(if s.len() > 0 && s[0] == '+' { s.skip(1) } else { s })
}

/// One or more decimal digits whose value fits in 32 bits.
pub open spec fn parsed_digits(t: Seq<char>) -> Option<u32> {
    if t.len() > 0 && (forall|i: int| 0 <= i < t.len() ==> #[trigger] is_digit(t[i])) && digits_value(t)
        <= u32::MAX {
        Some(digits_value(t) as u32)
    } else {
        None
    }
}

/// The `WxH` resolution a command line names: exactly one `x` between two
/// numbers.
pub open spec fn parsed_resolution(s: Seq<char>) -> Option<(u32, u32)> {
    let x = crate::session::last_index_of(s, 'x');
    if x >= 0 && !s.take(x).contains('x') {
        match (parsed_u32(s.take(x)), parsed_u32(s.skip(x + 1))) {
            (Some(w), Some(h)) => Some((w, h)),
            _ => None,
        }
    } else {
        None
    }
}

proof fn lemma_digits_value_prefix(t: Seq<char>, k: int)
    requires
        0 <= k <= t.len(),
        forall|i: int| 0 <= i < t.len() ==> #[trigger] is_digit(t[i]),
    ensures
        0 <= digits_value(t.take(k)) <= digits_value(t),
    decreases t.len(),
{
    if t.len() > 0 {
        assert forall|i: int| 0 <= i < t.drop_last().len() implies #[trigger] is_digit(t.drop_last()[i]) by {
            assert(is_digit(t[i]));
        }
        assert(is_digit(t[t.len() - 1]));
        if k == t.len() {
            assert(t.take(k) =~= t);
            lemma_digits_value_prefix(t.drop_last(), 0);
        } else {
            assert(t.drop_last().take(k) =~= t.take(k));
            lemma_digits_value_prefix(t.drop_last(), k);
        }
    } else {
        assert(t.take(k) =~= t);
    }
}

/// Parses `v[from..to]` as `str::parse::<u32>` does.
fn parse_u32_range(v: &Vec<char>, from: usize, to: usize) -> (r: Option<u32>)
    requires
        from <= to <= v.len(),
    ensures
        r == parsed_u32(v@.subrange(from as int, to as int)),
{
    let ghost s = v@.subrange(from as int, to as int);
    let mut start = from;
    if from < to && v[from] == '+' {
        start = from + 1;
    }
    let ghost t = v@.subrange(start as int, to as int);
    proof {
        if from < to && v@[from as int] == '+' {
            assert(s.skip(1) =~= t);
        } else {
            assert(s =~= t);
        }
    }
    if start == to {
        return None;
    }
    let mut value: u64 = 0;
    let mut i = start;
    while i < to
        invariant
            from <= start <= i <= to <= v.len(),
            start < to,
            t == v@.subrange(start as int, to as int),
            parsed_u32(v@.subrange(from as int, to as int)) == parsed_digits(t),
            forall|k: int| 0 <= k < i - start ==> #[trigger] is_digit(t[k]),
            value as int == digits_value(t.take(i - start)),
            value <= u32::MAX,
        decreases to - i,
    {
        let c = v[i];
        if !('0' <= c && c <= '9') {
            assert(!is_digit(t[i - start]));
            return None;
        }
        let d = (c as u32 - '0' as u32) as u64;
        let next = value * 10 + d;
        proof {
            assert(t.take(i - start + 1).drop_last() =~= t.take(i - start));
            assert(t.take(i - start + 1).last() == c);
        }
        if next > 4294967295 {
            proof {
                if forall|k: int| 0 <= k < t.len() ==> #[trigger] is_digit(t[k]) {
                    lemma_digits_value_prefix(t, i - start + 1);
                }
            }
            return None;
        }
        value = next;
        i = i + 1;
    }
    assert(t.take(t.len() as int) =~= t);
    Some(value as u32)
}

/// Parses a `WxH` resolution such as `1920x1080`.
pub fn parse_resolution(text: &str) -> (r: Option<(u32, u32)>)
    ensures
        r == parsed_resolution(text@),
{
    let v = chars_of(text);
    proof {
        crate::session::lemma_last_index_bounds(v@, 'x');
    }
    match crate::session::find_last(&v, 'x') {
        None => None,
        Some(x) => {
            let mut j: usize = 0;
            while j < x
                invariant
                    v@ == text@,
                    x as int == crate::session::last_index_of(v@, 'x'),
                    x < v.len(),
                    j <= x,
                    forall|k: int| 0 <= k < j ==> v@[k] != 'x',
                decreases x - j,
            {
                if v[j] == 'x' {
                    assert(v@.take(x as int)[j as int] == 'x');
                    return None;
                }
                j = j + 1;
            }
            assert(!v@.take(x as int).contains('x')) by {
                if v@.take(x as int).contains('x') {
                    let k = choose|k: int| 0 <= k < x && v@.take(x as int)[k] == 'x';
                    assert(v@[k] == 'x');
                }
            }
            let w = parse_u32_range(&v, 0, x);
            let h = parse_u32_range(&v, x + 1, v.len());
            assert(v@.subrange(0, x as int) =~= v@.take(x as int));
            assert(v@.subrange(x + 1, v.len() as int) =~= v@.skip(x + 1));
            match (w, h) {
                (Some(a), Some(b)) => Some((a, b)),
                _ => None,
            }
        },
    }
}

} // verus!
