//! Building a show from a directory of audio files: which files count as
//! audio, their order, track ids made from file names, default keys, and
//! file paths relative to the configuration.

use vstd::prelude::*;
use vstd::set_lib::{lemma_int_range, lemma_len_subset, lemma_map_size, set_int_range};
use crate::config::{Config, ConfigModel, MidiVolumeMode, PlaybackMode, TrackConfig, TrackModel};
use crate::error::{ErrorModel, PadsoundError};
use crate::numeric::UNIT_GAIN;
use crate::paths::{
    extension_of, file_name_of, file_stem_of, is_absolute_path, joined_path, path_extension,
    path_file_name, path_file_stem, path_is_absolute, path_join, path_strip_prefix, stripped_path,
};
use crate::sort::{is_stable_order, ranks_before, stable_order, stable_order_spec, text_lt};
use crate::text::{
    ascii_alphanumeric, char_lowercase, chars_of, decimal, is_ascii_alphanumeric_spec,
    is_blank, is_blank_str, lemma_decimal_injective, lemma_decimal_nonempty, lowercase_char,
    lowercase_str, push_char, push_decimal, str_eq, str_lowercase, string_from_range,
};

verus! {

// ---------------------------------------------------------------------------
// Supported files
// ---------------------------------------------------------------------------

/// An extension (already lowercased) of a format the player decodes.
pub open spec fn is_supported_extension(e: Seq<char>) -> bool {
    ||| e == "wav"@
    ||| e == "wave"@
    ||| e == "mp3"@
    ||| e == "flac"@
    ||| e == "ogg"@
    ||| e == "opus"@
    ||| e == "aiff"@
    ||| e == "aif"@
    ||| e == "aac"@
    ||| e == "m4a"@
}

/// The path names an audio file: its extension, lowercased, is supported.
pub open spec fn is_supported_audio_file_spec(path: Seq<char>) -> bool {
    match extension_of(path) {
        Some(e) => is_supported_extension(str_lowercase(e)),
        None => false,
    }
}

/// Whether a lowercased extension is one of the supported formats.
pub fn supported_extension(e: &str) -> (r: bool)
    ensures
        r == is_supported_extension(e@),
{
    str_eq(e, "wav") || str_eq(e, "wave") || str_eq(e, "mp3") || str_eq(e, "flac") || str_eq(
        e,
        "ogg",
    ) || str_eq(e, "opus") || str_eq(e, "aiff") || str_eq(e, "aif") || str_eq(e, "aac")
        || str_eq(e, "m4a")
}

/// Whether `path` names a file of a supported audio format.
pub fn is_supported_audio_file(path: &str) -> (r: bool)
    ensures
        r == is_supported_audio_file_spec(path@),
{
    match path_extension(path) {
        Some(extension) => {
            let lowered = lowercase_str(extension.as_str());
            supported_extension(lowered.as_str())
        },
        None => false,
    }
}

// ---------------------------------------------------------------------------
// Track ids
// ---------------------------------------------------------------------------

/// The characters of `s`, each replaced by its lowercase mapping.
pub open spec fn lowercase_chars(s: Seq<char>) -> Seq<char>
    decreases s.len(),
{
    if s.len() == 0 {
        Seq::empty()
    } else {
        lowercase_chars(s.drop_last()) + char_lowercase(s.last())
    }
}

/// Keeps ASCII letters and digits and turns each run of other characters
/// after the first kept one into a single `'_'`. Also returns whether the
/// last character written was such a separator.
pub open spec fn squeeze(s: Seq<char>) -> (Seq<char>, bool)
    decreases s.len(),
{
    if s.len() == 0 {
        (Seq::empty(), false)
    } else {
        let prev = squeeze(s.drop_last());
        let c = s.last();
        if is_ascii_alphanumeric_spec(c) {
            (prev.0.push(c), false)
        } else if !prev.1 && prev.0.len() > 0 {
            (prev.0.push('_'), true)
        } else {
            prev
        }
    }
}

/// `s` without leading underscores.
pub open spec fn strip_leading_underscores(s: Seq<char>) -> Seq<char>
    decreases s.len(),
{
    if s.len() > 0 && s[0] == '_' {
        strip_leading_underscores(s.drop_first())
    } else {
        s
    }
}

/// `s` without trailing underscores.
pub open spec fn strip_trailing_underscores(s: Seq<char>) -> Seq<char>
    decreases s.len(),
{
    if s.len() > 0 && s.last() == '_' {
        strip_trailing_underscores(s.drop_last())
    } else {
        s
    }
}

/// The id made from a track name: lowercased, ASCII letters and digits
/// kept, other runs turned into `'_'`, no `'_'` at either end.
pub open spec fn sanitize_spec(name: Seq<char>) -> Seq<char> {
    strip_trailing_underscores(strip_leading_underscores(squeeze(lowercase_chars(name)).0))
}

proof fn lemma_strip_leading(s: Seq<char>, k: int)
    requires
        0 <= k <= s.len(),
        forall|i: int| 0 <= i < k ==> #[trigger] s[i] == '_',
        k == s.len() || s[k] != '_',
    ensures
        strip_leading_underscores(s) == s.subrange(k, s.len() as int),
    decreases k,
{
    if k > 0 {
        lemma_strip_leading(s.drop_first(), k - 1);
        assert(s.drop_first().subrange(k - 1, s.len() - 1) =~= s.subrange(k, s.len() as int));
    } else {
        assert(s.subrange(0, s.len() as int) =~= s);
    }
}

proof fn lemma_strip_trailing(s: Seq<char>, k: int)
    requires
        0 <= k <= s.len(),
        forall|i: int| k <= i < s.len() ==> #[trigger] s[i] == '_',
        k == 0 || s[k - 1] != '_',
    ensures
        strip_trailing_underscores(s) == s.subrange(0, k),
    decreases s.len() - k,
{
    if k < s.len() {
        lemma_strip_trailing(s.drop_last(), k);
        assert(s.drop_last().subrange(0, k) =~= s.subrange(0, k));
    } else {
        assert(s.subrange(0, s.len() as int) =~= s);
    }
}

fn strip_underscores(v: &Vec<char>) -> (r: String)
    ensures
        r@ == strip_trailing_underscores(strip_leading_underscores(v@)),
{
    let n = v.len();
    let mut lo: usize = 0;
    while lo < n && v[lo] == '_'
        invariant
            n == v@.len(),
            lo <= n,
            forall|i: int| 0 <= i < lo ==> #[trigger] v@[i] == '_',
        decreases n - lo,
    {
        lo += 1;
    }
    proof {
        lemma_strip_leading(v@, lo as int);
    }
    let mut hi: usize = n;
    while hi > lo && v[hi - 1] == '_'
        invariant
            n == v@.len(),
            lo <= hi <= n,
            forall|i: int| hi <= i < n ==> #[trigger] v@[i] == '_',
        decreases hi,
    {
        hi -= 1;
    }
    proof {
        let t = v@.subrange(lo as int, n as int);
        assert forall|i: int| (hi - lo) <= i < t.len() implies #[trigger] t[i] == '_' by {
            assert(t[i] == v@[i + lo]);
        }
        if hi > lo {
            assert(t[hi - lo - 1] == v@[hi - 1]);
        }
        lemma_strip_trailing(t, hi - lo);
        assert(t.subrange(0, hi - lo) =~= v@.subrange(lo as int, hi as int));
    }
    string_from_range(v, lo, hi)
}

/// The id made from a track name (see [`sanitize_spec`]).
pub fn sanitize_track_id(name: &str) -> (r: String)
    ensures
        r@ == sanitize_spec(name@),
{
    let chars = chars_of(name);
    let mut id: Vec<char> = Vec::new();
    let mut last_was_separator = false;
    let mut i: usize = 0;
    while i < chars.len()
        invariant
            chars@ == name@,
            i <= chars.len(),
            (id@, last_was_separator) == squeeze(lowercase_chars(chars@.take(i as int))),
        decreases chars.len() - i,
    {
        let lowered = lowercase_char(chars[i]);
        let ghost done = lowercase_chars(chars@.take(i as int));
        let mut j: usize = 0;
        while j < lowered.len()
            invariant
                j <= lowered.len(),
                lowered@ == char_lowercase(chars@[i as int]),
                (id@, last_was_separator) == squeeze(done + lowered@.take(j as int)),
            decreases lowered.len() - j,
        {
            let c = lowered[j];
            let ghost seen = done + lowered@.take(j as int);
            assert((done + lowered@.take(j + 1)) =~= seen.push(c));
            assert(seen.push(c).drop_last() =~= seen);
            if ascii_alphanumeric(c) {
                id.push(c);
                last_was_separator = false;
            } else if !last_was_separator && id.len() > 0 {
                id.push('_');
                last_was_separator = true;
            }
            j += 1;
        }
        assert(lowered@.take(lowered@.len() as int) =~= lowered@);
        assert(chars@.take(i + 1).drop_last() =~= chars@.take(i as int));
        assert(chars@.take(i + 1).last() == chars@[i as int]);
        i += 1;
    }
    assert(chars@.take(chars@.len() as int) =~= chars@);
    strip_underscores(&id)
}

/// The text of a list of strings.
pub open spec fn texts(v: Seq<String>) -> Seq<Seq<char>> {
    v.map_values(|s: String| s@)
}

/// The `k`-th alternative id for `base`: `base_k`.
pub open spec fn id_candidate(base: Seq<char>, k: nat) -> Seq<char> {
    base + seq!['_'] + decimal(k)
}

/// The first alternative `base_k`, from `k` on, that is not in `used`
/// (looking no further than `used` can require).
pub open spec fn first_free_candidate(base: Seq<char>, used: Seq<Seq<char>>, k: nat) -> Seq<char>
    decreases used.len() + 2 - k,
{
    if k > used.len() + 1 {
        id_candidate(base, k)
    } else if !used.contains(id_candidate(base, k)) {
        id_candidate(base, k)
    } else {
        first_free_candidate(base, used, k + 1)
    }
}

/// The id base for a track name: its sanitized form, or `"track"`.
pub open spec fn id_base(name: Seq<char>) -> Seq<char> {
    if sanitize_spec(name).len() == 0 {
        "track"@
    } else {
        sanitize_spec(name)
    }
}

/// The id given to a track name when the ids in `used` are taken: the
/// base id if free, else the first free `base_2`, `base_3`, ...
pub open spec fn unique_id_spec(name: Seq<char>, used: Seq<Seq<char>>) -> Seq<char> {
    let base = id_base(name);
    if !used.contains(base) {
        base
    } else {
        first_free_candidate(base, used, 2)
    }
}

proof fn lemma_candidate_longer(base: Seq<char>, k: nat)
    ensures
        id_candidate(base, k).len() > base.len(),
        id_candidate(base, k) != base,
{
    lemma_decimal_nonempty(k);
}

proof fn lemma_candidate_injective(base: Seq<char>, a: nat, b: nat)
    requires
        id_candidate(base, a) == id_candidate(base, b),
    ensures
        a == b,
{
    let n = base.len() + 1;
    assert(id_candidate(base, a).subrange(n as int, id_candidate(base, a).len() as int) =~= decimal(a));
    assert(id_candidate(base, b).subrange(n as int, id_candidate(base, b).len() as int) =~= decimal(b));
    lemma_decimal_injective(a, b);
}

/// When `base` and every `base_j` for `2 <= j < k` are taken, `used` is at
/// least `k - 1` long.
proof fn lemma_candidates_bound(base: Seq<char>, used: Seq<Seq<char>>, k: nat)
    requires
        k >= 2,
        used.contains(base),
        forall|j: nat| 2 <= j < k ==> used.contains(#[trigger] id_candidate(base, j)),
    ensures
        k - 1 <= used.len(),
{
    let f = |j: int| if j == 1 { base } else { id_candidate(base, j as nat) };
    let dom = set_int_range(1, k as int);
    lemma_int_range(1, k as int);
    assert forall|x: int, y: int| dom.contains(x) && dom.contains(y) && #[trigger] f(x) == #[trigger] f(
        y,
    ) implies x == y by {
        if x == 1 && y != 1 {
            lemma_candidate_longer(base, y as nat);
        } else if x != 1 && y == 1 {
            lemma_candidate_longer(base, x as nat);
        } else if x != 1 && y != 1 {
            lemma_candidate_injective(base, x as nat, y as nat);
        }
    }
    let img = dom.map(f);
    lemma_map_size(dom, img, f);
    assert forall|x: Seq<char>| img.contains(x) implies used.to_set().contains(x) by {
        let j = choose|j: int| dom.contains(j) && f(j) == x;
        if j == 1 {
            assert(used.contains(base));
        } else {
            assert(used.contains(id_candidate(base, j as nat)));
        }
    }
    lemma_len_subset(img, used.to_set());
    used.lemma_cardinality_of_set();
}

proof fn lemma_first_free_step(base: Seq<char>, used: Seq<Seq<char>>, k: nat)
    requires
        k <= used.len() + 1,
        used.contains(id_candidate(base, k)),
    ensures
        first_free_candidate(base, used, k) == first_free_candidate(base, used, k + 1),
{
}

fn contains_text(used: &Vec<String>, s: &String) -> (r: bool)
    ensures
        r == texts(used@).contains(s@),
{
    let ghost t = texts(used@);
    let mut j: usize = 0;
    while j < used.len()
        invariant
            t == texts(used@),
            t.len() == used.len(),
            j <= used.len(),
            forall|k: int| 0 <= k < j ==> t[k] != s@,
        decreases used.len() - j,
    {
        if used[j] == *s {
            assert(t[j as int] == s@);
            return true;
        }
        j += 1;
    }
    false
}

fn candidate_string(base: &String, k: u128) -> (r: String)
    ensures
        r@ == id_candidate(base@, k as nat),
{
    let mut s = base.clone();
    push_char(&mut s, '_');
    push_decimal(&mut s, k);
    s
}

/// The id for a track named `name` that is not yet in `used`; it is added
/// to `used`.
pub fn unique_track_id(name: &str, used: &mut Vec<String>) -> (r: String)
    ensures
        r@ == unique_id_spec(name@, texts(old(used)@)),
        !texts(old(used)@).contains(r@),
        texts(final(used)@) == texts(old(used)@).push(r@),
{
    let mut id = sanitize_track_id(name);
    if id.unicode_len() == 0 {
        id = String::from_str("track");
    }
    assert(id@ == id_base(name@));
    let ghost u = texts(used@);
    if !contains_text(used, &id) {
        used.push(id.clone());
        assert(texts(used@) =~= u.push(id@));
        return id;
    }
    let mut k: u128 = 2;
    loop
        invariant
            u == texts(used@),
            u == texts(old(used)@),
            u.len() == used.len(),
            id@ == id_base(name@),
            u.contains(id@),
            2 <= k <= u.len() + 1,
            forall|j: nat| 2 <= j < k ==> u.contains(#[trigger] id_candidate(id@, j)),
            first_free_candidate(id@, u, 2) == first_free_candidate(id@, u, k as nat),
        decreases u.len() + 2 - k,
    {
        let candidate = candidate_string(&id, k);
        if !contains_text(used, &candidate) {
            assert(first_free_candidate(id@, u, k as nat) == candidate@);
            used.push(candidate.clone());
            assert(texts(used@) =~= u.push(candidate@));
            return candidate;
        }
        proof {
            lemma_first_free_step(id@, u, k as nat);
            assert forall|j: nat| 2 <= j < k + 1 implies u.contains(#[trigger] id_candidate(id@, j)) by {
                if j == k {
                    assert(id_candidate(id@, j) == candidate@);
                }
            }
            lemma_candidates_bound(id@, u, (k + 1) as nat);
        }
        k += 1;
    }
}

} // verus!

verus! {

// ---------------------------------------------------------------------------
// Default keys
// ---------------------------------------------------------------------------

/// The keys given to generated tracks, in order.
pub open spec fn generated_key_chars() -> Seq<char> {
    seq![
        '1', '2', '3', '4', '5', '6', '7', '8', '9', '0', 'w', 'e', 'r', 't', 'y', 'u', 'i', 'o',
        'p', 'a', 's', 'd', 'f', 'g', 'h', 'j', 'k', 'l', 'z', 'c', 'v', 'b', 'n', 'm',
    ]
}

/// The keys given to generated tracks, in order, one character each.
pub fn default_generated_keys() -> (r: Vec<char>)
    ensures
        r@ == generated_key_chars(),
        r@.len() == 34,
{
    let keys: Vec<char> = vec![
        '1', '2', '3', '4', '5', '6', '7', '8', '9', '0', 'w', 'e', 'r', 't', 'y', 'u', 'i', 'o',
        'p', 'a', 's', 'd', 'f', 'g', 'h', 'j', 'k', 'l', 'z', 'c', 'v', 'b', 'n', 'm',
    ];
    assert(keys@ =~= generated_key_chars());
    keys
}

// ---------------------------------------------------------------------------
// Paths relative to the configuration
// ---------------------------------------------------------------------------

/// `p` made absolute against the current directory `cwd` (`None` when it
/// is relative and the current directory is unknown).
pub open spec fn absolute_path_spec(p: Seq<char>, cwd: Option<Seq<char>>) -> Option<Seq<char>> {
    if is_absolute_path(p) {
        Some(p)
    } else {
        match cwd {
            Some(c) => Some(joined_path(c, p)),
            None => None,
        }
    }
}

/// The path written into a generated configuration for `path`: relative
/// to the configuration's directory when it lies below it, absolute
/// otherwise.
pub open spec fn path_for_config_spec(
    path: Seq<char>,
    base_dir: Seq<char>,
    cwd: Option<Seq<char>>,
) -> Result<Seq<char>, ErrorModel> {
    match absolute_path_spec(path, cwd) {
        None => Err(ErrorModel::CurrentDirUnavailable),
        Some(p) => match absolute_path_spec(base_dir, cwd) {
            None => Err(ErrorModel::CurrentDirUnavailable),
            Some(b) => Ok(
                match stripped_path(p, b) {
                    Some(r) => r,
                    None => p,
                },
            ),
        },
    }
}

/// The text held in an optional string slice.
pub open spec fn opt_str(o: Option<&str>) -> Option<Seq<char>> {
    match o {
        Some(s) => Some(s@),
        None => None,
    }
}

/// `path` made absolute; `current_dir` is the process's current directory
/// when it could be determined.
pub fn absolute_path(path: &str, current_dir: Option<&str>) -> (r: Result<String, PadsoundError>)
    ensures
        match absolute_path_spec(path@, opt_str(current_dir)) {
            Some(p) => r matches Ok(s) && s@ == p,
            None => r matches Err(e) && e@ == ErrorModel::CurrentDirUnavailable,
        },
{
    if path_is_absolute(path) {
        return Ok(String::from_str(path));
    }
    match current_dir {
        Some(dir) => Ok(path_join(dir, path)),
        None => Err(PadsoundError::CurrentDirUnavailable),
    }
}

/// The path to write into a generated configuration for `path`, given the
/// configuration's directory `base_dir`.
pub fn path_for_config(path: &str, base_dir: &str, current_dir: Option<&str>) -> (r: Result<
    String,
    PadsoundError,
>)
    ensures
        match path_for_config_spec(path@, base_dir@, opt_str(current_dir)) {
            Ok(p) => r matches Ok(s) && s@ == p,
            Err(e) => r matches Err(x) && x@ == e,
        },
{
    let path = absolute_path(path, current_dir)?;
    let base_dir = absolute_path(base_dir, current_dir)?;
    match path_strip_prefix(path.as_str(), base_dir.as_str()) {
        Some(relative) => Ok(relative),
        None => Ok(path),
    }
}

// ---------------------------------------------------------------------------
// Generation
// ---------------------------------------------------------------------------

/// An entry of the audio directory: its path and whether it is a regular
/// file.
#[derive(Debug, Clone)]
pub struct AudioDirEntry {
    pub path: String,
    pub is_file: bool,
}

/// The paths of the entries that are regular files of a supported format,
/// in listing order.
pub open spec fn audio_files_spec(entries: Seq<AudioDirEntry>) -> Seq<Seq<char>>
    decreases entries.len(),
{
    if entries.len() == 0 {
        Seq::empty()
    } else {
        let rest = audio_files_spec(entries.drop_last());
        let e = entries.last();
        if e.is_file && is_supported_audio_file_spec(e.path@) {
            rest.push(e.path@)
        } else {
            rest
        }
    }
}

/// The key files are sorted by: the lowercased file name (empty without
/// one).
pub open spec fn sort_key_spec(path: Seq<char>) -> Seq<char> {
    match file_name_of(path) {
        Some(n) => str_lowercase(n),
        None => Seq::empty(),
    }
}

/// The sort keys of a list of files.
pub open spec fn sort_keys_spec(files: Seq<Seq<char>>) -> Seq<Seq<char>> {
    files.map_values(|p: Seq<char>| sort_key_spec(p))
}

/// The name of a generated track: the file's stem, else `Track <n>` for
/// the `n`-th file.
pub open spec fn track_name_spec(path: Seq<char>, index: nat) -> Seq<char> {
    match file_stem_of(path) {
        Some(s) => s,
        None => "Track "@ + decimal(index + 1),
    }
}

/// The generated track for a file.
pub open spec fn generated_track(id: Seq<char>, name: Seq<char>, file: Seq<char>, index: int) -> TrackModel {
    TrackModel {
        id,
        name,
        file,
        key: Some(seq![generated_key_chars()[index]]),
        mode: PlaybackMode::Toggle,
        looping: false,
        start_at: 0,
        stop_before_end: 0,
        fade_in: None,
        fade_out: None,
        volume: UNIT_GAIN,
        midi_note: None,
        midi_volume_cc: None,
    }
}

/// The tracks generated for the sorted `files` from position `i` on, when
/// the ids in `used` are taken; stops at the first path that cannot be made
/// absolute.
pub open spec fn generated_tracks_spec(
    files: Seq<Seq<char>>,
    i: int,
    used: Seq<Seq<char>>,
    base_dir: Seq<char>,
    cwd: Option<Seq<char>>,
) -> Result<Seq<TrackModel>, ErrorModel>
    decreases files.len() - i,
{
    if i < 0 || i >= files.len() {
        Ok(Seq::empty())
    } else {
        let name = track_name_spec(files[i], i as nat);
        let id = unique_id_spec(name, used);
        match path_for_config_spec(files[i], base_dir, cwd) {
            Err(e) => Err(e),
            Ok(file) => match generated_tracks_spec(files, i + 1, used.push(id), base_dir, cwd) {
                Err(e) => Err(e),
                Ok(rest) => Ok(seq![generated_track(id, name, file, i)] + rest),
            },
        }
    }
}

/// The name of a generated show: the directory's name, unless blank.
pub open spec fn show_name_spec(audio_dir: Seq<char>) -> Option<Seq<char>> {
    match file_name_of(audio_dir) {
        Some(n) => if is_blank(n) {
            None
        } else {
            Some(n)
        },
        None => None,
    }
}

/// The show generated from a directory listing, with the audio files taken
/// in `order` (positions into the list of audio files).
pub open spec fn generation_spec(
    audio_dir: Seq<char>,
    entries: Seq<AudioDirEntry>,
    config_path: Seq<char>,
    cwd: Option<Seq<char>>,
    order: Seq<usize>,
) -> Result<ConfigModel, ErrorModel> {
    let files = audio_files_spec(entries);
    let sorted = order.map_values(|k: usize| files[k as int]);
    if files.len() == 0 {
        Err(ErrorModel::NoAudioFiles { dir: audio_dir })
    } else if files.len() > 34 {
        Err(ErrorModel::TooManyAudioFiles { found: files.len() as usize, available: 34 })
    } else {
        match generated_tracks_spec(
            sorted,
            0,
            Seq::empty(),
            crate::config::base_dir_spec(config_path),
            cwd,
        ) {
            Err(e) => Err(e),
            Ok(tracks) => Ok(
                ConfigModel {
                    schema_version: 1,
                    name: show_name_spec(audio_dir),
                    midi_volume_mode: MidiVolumeMode::Relative,
                    tracks,
                },
            ),
        }
    }
}

/// Prefixes generated tracks to a later result.
pub open spec fn prepend_tracks(ts: Seq<TrackModel>, r: Result<Seq<TrackModel>, ErrorModel>) -> Result<
    Seq<TrackModel>,
    ErrorModel,
> {
    match r {
        Ok(x) => Ok(ts + x),
        Err(e) => Err(e),
    }
}

fn audio_files(entries: &Vec<AudioDirEntry>) -> (r: Vec<String>)
    ensures
        texts(r@) == audio_files_spec(entries@),
{
    let mut files: Vec<String> = Vec::new();
    let mut i: usize = 0;
    while i < entries.len()
        invariant
            i <= entries.len(),
            texts(files@) == audio_files_spec(entries@.take(i as int)),
        decreases entries.len() - i,
    {
        let e = &entries[i];
        assert(entries@.take(i + 1).drop_last() =~= entries@.take(i as int));
        assert(entries@.take(i + 1).last() == *e);
        if e.is_file && is_supported_audio_file(e.path.as_str()) {
            let ghost before = texts(files@);
            files.push(e.path.clone());
            assert(texts(files@) =~= before.push(e.path@));
        }
        i += 1;
    }
    assert(entries@.take(entries@.len() as int) =~= entries@);
    files
}

fn sort_key(path: &str) -> (r: Vec<char>)
    ensures
        r@ == sort_key_spec(path@),
{
    match path_file_name(path) {
        Some(name) => {
            let lowered = lowercase_str(name.as_str());
            chars_of(lowered.as_str())
        },
        None => Vec::new(),
    }
}

fn track_name(path: &str, index: usize) -> (r: String)
    requires
        index < 1000,
    ensures
        r@ == track_name_spec(path@, index as nat),
{
    match path_file_stem(path) {
        Some(stem) => stem,
        None => {
            let mut s = String::from_str("Track ");
            push_decimal(&mut s, index as u128 + 1);
            s
        },
    }
}

fn show_name(audio_dir: &str) -> (r: Option<String>)
    ensures
        opt_text_of(r) == show_name_spec(audio_dir@),
{
    match path_file_name(audio_dir) {
        Some(name) => if is_blank_str(name.as_str()) {
            None
        } else {
            Some(name)
        },
        None => None,
    }
}

/// Text held in an optional string.
pub open spec fn opt_text_of(o: Option<String>) -> Option<Seq<char>> {
    match o {
        Some(s) => Some(s@),
        None => None,
    }
}

impl Config {
    /// Generates a show from the entries of the audio directory
    /// `audio_dir`: one toggle track per supported audio file, sorted by
    /// lowercased file name (stable), named after the file's stem, with an
    /// id made from the name, the next default key, full volume, and the
    /// file's path relative to the directory of `config_path` when it lies
    /// below it. `current_dir` is the process's current directory, used for
    /// relative paths.
    pub fn generate_from_audio_dir(
        audio_dir: &str,
        entries: &Vec<AudioDirEntry>,
        config_path: &str,
        current_dir: Option<&str>,
    ) -> (r: Result<Config, PadsoundError>)
        ensures
            match generation_spec(
                audio_dir@,
                entries@,
                config_path@,
                opt_str(current_dir),
                stable_order_spec(sort_keys_spec(audio_files_spec(entries@))),
            ) {
                Ok(c) => r matches Ok(x) && x@ == c,
                Err(e) => r matches Err(x) && x@ == e,
            },
            r matches Ok(c) ==> forall|i: int, j: int|
                0 <= i < j < c@.tracks.len() ==> c@.tracks[i].id != c@.tracks[j].id,
            is_stable_order(
                sort_keys_spec(audio_files_spec(entries@)),
                stable_order_spec(sort_keys_spec(audio_files_spec(entries@))),
            ),
    {
        let files = audio_files(entries);
        let ghost fs = audio_files_spec(entries@);
        let ghost ks = sort_keys_spec(fs);
        let mut keys: Vec<Vec<char>> = Vec::new();
        let mut i: usize = 0;
        while i < files.len()
            invariant
                texts(files@) == fs,
                fs.len() == files.len(),
                ks == sort_keys_spec(fs),
                i <= files.len(),
                keys@.map_values(|k: Vec<char>| k@) == ks.take(i as int),
            decreases files.len() - i,
        {
            let key = sort_key(files[i].as_str());
            assert(fs[i as int] == files@[i as int]@);
            assert(ks[i as int] == key@);
            let ghost before = keys@.map_values(|k: Vec<char>| k@);
            keys.push(key);
            assert(keys@.map_values(|k: Vec<char>| k@) =~= before.push(ks[i as int]));
            assert(ks.take(i + 1) =~= ks.take(i as int).push(ks[i as int]));
            i += 1;
        }
        assert(ks.take(files.len() as int) =~= ks);
        let order = stable_order(&keys);
        assert(is_stable_order(ks, order@));
        assert(order@ == stable_order_spec(ks));
        let ghost sorted = order@.map_values(|k: usize| fs[k as int]);
        assert(generation_spec(audio_dir@, entries@, config_path@, opt_str(current_dir), order@)
            == generation_spec(audio_dir@, entries@, config_path@, opt_str(current_dir), order@));
        if files.len() == 0 {
            return Err(PadsoundError::NoAudioFiles { dir: String::from_str(audio_dir) });
        }
        let keys_available = default_generated_keys();
        if files.len() > keys_available.len() {
            return Err(
                PadsoundError::TooManyAudioFiles {
                    found: files.len(),
                    available: keys_available.len(),
                },
            );
        }
        let base_dir = Config::base_dir(config_path);
        let ghost total = generated_tracks_spec(
            sorted,
            0,
            Seq::empty(),
            base_dir@,
            opt_str(current_dir),
        );
        let mut used: Vec<String> = Vec::new();
        let mut tracks: Vec<TrackConfig> = Vec::new();
        let mut p: usize = 0;
        assert(crate::config::tracks_model(tracks@) =~= Seq::<TrackModel>::empty());
        assert(texts(used@) =~= Seq::<Seq<char>>::empty());
        assert(prepend_tracks(Seq::empty(), total) == total) by {
            if let Ok(x) = total {
                assert(Seq::<TrackModel>::empty() + x =~= x);
            }
        }
        while p < order.len()
            invariant
                texts(files@) == fs,
                fs == audio_files_spec(entries@),
                ks == sort_keys_spec(fs),
                is_stable_order(ks, order@),
                order@ == stable_order_spec(ks),
                fs.len() > 0,
                base_dir@ == crate::config::base_dir_spec(config_path@),
                total == generated_tracks_spec(
                    sorted,
                    0,
                    Seq::empty(),
                    base_dir@,
                    opt_str(current_dir),
                ),
                fs.len() == files.len(),
                files.len() <= 34,
                keys_available@ == generated_key_chars(),
                sorted == order@.map_values(|k: usize| fs[k as int]),
                order@.len() == fs.len(),
                forall|x: int| 0 <= x < order@.len() ==> #[trigger] order@[x] < fs.len(),
                p <= order.len(),
                tracks.len() == p,
                total == prepend_tracks(
                    crate::config::tracks_model(tracks@),
                    generated_tracks_spec(sorted, p as int, texts(used@), base_dir@, opt_str(current_dir)),
                ),
                texts(used@) == crate::config::tracks_model(tracks@).map_values(|t: TrackModel| t.id),
                forall|x: int, y: int|
                    0 <= x < y < tracks.len() ==> crate::config::tracks_model(tracks@)[x].id
                        != crate::config::tracks_model(tracks@)[y].id,
            decreases order.len() - p,
        {
            let file = &files[order[p]];
            assert(sorted[p as int] == file@);
            let name = track_name(file.as_str(), p);
            let ghost used_before = texts(used@);
            let id = unique_track_id(name.as_str(), &mut used);
            let ghost ts = crate::config::tracks_model(tracks@);
            let relative = match path_for_config(file.as_str(), base_dir.as_str(), current_dir) {
                Ok(f) => f,
                Err(e) => {
                    proof {
                        assert(generated_tracks_spec(sorted, p as int, used_before, base_dir@, opt_str(current_dir)) == Err::<Seq<TrackModel>, ErrorModel>(e@));
                        assert(total == Err::<Seq<TrackModel>, ErrorModel>(e@));
                        assert(is_stable_order(ks, order@));
                    }
                    return Err(e);
                },
            };
            let track = TrackConfig {
                id,
                name,
                file: relative,
                key: Some(string_of_char(keys_available[p])),
                mode: PlaybackMode::Toggle,
                looping: false,
                start_at: 0,
                stop_before_end: 0,
                fade_in: None,
                fade_out: None,
                volume: UNIT_GAIN,
                midi_note: None,
                midi_volume_cc: None,
            };
            assert(track@ == generated_track(track.id@, track.name@, track.file@, p as int));
            tracks.push(track);
            proof {
                assert(crate::config::tracks_model(tracks@) =~= ts.push(track@));
                let rest = generated_tracks_spec(
                    sorted,
                    p + 1,
                    used_before.push(track.id@),
                    base_dir@,
                    opt_str(current_dir),
                );
                if let Ok(x) = rest {
                    assert(ts + (seq![track@] + x) =~= ts.push(track@) + x);
                }
                assert(crate::config::tracks_model(tracks@).map_values(|t: TrackModel| t.id)
                    =~= used_before.push(track.id@));
                assert forall|x: int, y: int|
                    0 <= x < y < tracks.len() implies crate::config::tracks_model(tracks@)[x].id
                    != crate::config::tracks_model(tracks@)[y].id by {
                    if y == p {
                        assert(used_before[x] == ts[x].id);
                        assert(used_before.contains(ts[x].id));
                    }
                }
            }
            p += 1;
        }
        let config = Config {
            schema_version: 1,
            name: show_name(audio_dir),
            midi_volume_mode: MidiVolumeMode::Relative,
            tracks,
        };
        proof {
            if let Ok(x) = generated_tracks_spec(sorted, p as int, texts(used@), base_dir@, opt_str(current_dir)) {
                assert(x =~= Seq::<TrackModel>::empty());
            }
            assert(crate::config::tracks_model(config.tracks@) + Seq::<TrackModel>::empty()
                =~= crate::config::tracks_model(config.tracks@));
        }
        Ok(config)
    }
}

/// A one-character string.
pub fn string_of_char(c: char) -> (r: String)
    ensures
        r@ == seq![c],
{
    let mut s = String::new();
    push_char(&mut s, c);
    assert(Seq::<char>::empty().push(c) =~= seq![c]);
    s
}

} // verus!

verus! {

// ---------------------------------------------------------------------------
// Generated shows pass validation
// ---------------------------------------------------------------------------

/// A character that can appear in a generated id.
pub open spec fn is_id_char(c: char) -> bool {
    is_ascii_alphanumeric_spec(c) || c == '_'
}

proof fn lemma_squeeze_chars(s: Seq<char>)
    ensures
        forall|i: int| 0 <= i < squeeze(s).0.len() ==> is_id_char(#[trigger] squeeze(s).0[i]),
    decreases s.len(),
{
    if s.len() > 0 {
        lemma_squeeze_chars(s.drop_last());
        let prev = squeeze(s.drop_last());
        assert forall|i: int| 0 <= i < squeeze(s).0.len() implies is_id_char(#[trigger] squeeze(s).0[i]) by {
            if i < prev.0.len() {
                assert(squeeze(s).0[i] == prev.0[i]);
            }
        }
    }
}

/// The ASCII letters and digits of `s`, in order.
pub open spec fn alnum_chars(s: Seq<char>) -> Seq<char>
    decreases s.len(),
{
    if s.len() == 0 {
        Seq::empty()
    } else if is_ascii_alphanumeric_spec(s.last()) {
        alnum_chars(s.drop_last()).push(s.last())
    } else {
        alnum_chars(s.drop_last())
    }
}

/// No two underscores stand side by side in `s`.
pub open spec fn no_double_underscore(s: Seq<char>) -> bool {
    forall|i: int| 0 <= i < s.len() - 1 && #[trigger] s[i] == '_' ==> s[i + 1] != '_'
}

proof fn lemma_squeeze_shape(s: Seq<char>)
    ensures
        ({
            let out = squeeze(s).0;
            &&& out.len() > 0 ==> out[0] != '_'
            &&& no_double_underscore(out)
            &&& squeeze(s).1 <==> (out.len() > 0 && out.last() == '_')
            &&& alnum_chars(out) == alnum_chars(s)
        }),
    decreases s.len(),
{
    if s.len() > 0 {
        let prev = squeeze(s.drop_last());
        let c = s.last();
        lemma_squeeze_shape(s.drop_last());
        let out = squeeze(s).0;
        if out.len() > 0 && out != prev.0 {
            assert(out.drop_last() =~= prev.0);
            assert forall|i: int| 0 <= i < out.len() - 1 && #[trigger] out[i] == '_' implies out[i
                + 1] != '_' by {
                assert(out[i] == prev.0[i]);
                if i + 1 < prev.0.len() {
                    assert(out[i + 1] == prev.0[i + 1]);
                }
            }
            if prev.0.len() > 0 {
                assert(out[0] == prev.0[0]);
            }
        }
    }
}

/// The maximal runs of ASCII letters and digits in `s`, in order.
pub open spec fn alnum_runs(s: Seq<char>) -> Seq<Seq<char>>
    decreases s.len(),
{
    if s.len() == 0 {
        Seq::empty()
    } else {
        let runs = alnum_runs(s.drop_last());
        let c = s.last();
        if !is_ascii_alphanumeric_spec(c) {
            runs
        } else if s.len() >= 2 && is_ascii_alphanumeric_spec(s[s.len() - 2]) && runs.len() > 0 {
            runs.update(runs.len() - 1, runs.last().push(c))
        } else {
            runs.push(seq![c])
        }
    }
}

/// The texts of `runs` joined by single underscores.
pub open spec fn join_underscore(runs: Seq<Seq<char>>) -> Seq<char>
    decreases runs.len(),
{
    if runs.len() == 0 {
        Seq::empty()
    } else if runs.len() == 1 {
        runs[0]
    } else {
        join_underscore(runs.drop_last()) + seq!['_'] + runs.last()
    }
}

proof fn lemma_join_extend(runs: Seq<Seq<char>>, c: char)
    requires
        runs.len() > 0,
    ensures
        join_underscore(runs.update(runs.len() - 1, runs.last().push(c))) == join_underscore(
            runs,
        ).push(c),
{
    let r2 = runs.update(runs.len() - 1, runs.last().push(c));
    assert(r2.drop_last() =~= runs.drop_last());
    if runs.len() == 1 {
        assert(r2[0] == runs[0].push(c));
    } else {
        assert(r2.last() == runs.last().push(c));
        assert(join_underscore(runs.drop_last()) + seq!['_'] + runs.last().push(c) =~= (
        join_underscore(runs.drop_last()) + seq!['_'] + runs.last()).push(c));
    }
}

proof fn lemma_join_push(runs: Seq<Seq<char>>, c: char)
    ensures
        join_underscore(runs.push(seq![c])) == if runs.len() == 0 {
            seq![c]
        } else {
            join_underscore(runs).push('_').push(c)
        },
{
    let r2 = runs.push(seq![c]);
    assert(r2.drop_last() =~= runs);
    if runs.len() > 0 {
        assert(join_underscore(runs) + seq!['_'] + seq![c] =~= join_underscore(runs).push('_').push(
            c,
        ));
    }
}

proof fn lemma_join_last(runs: Seq<Seq<char>>)
    requires
        runs.len() > 0,
        forall|k: int| 0 <= k < runs.len() ==> (#[trigger] runs[k]).len() > 0,
    ensures
        join_underscore(runs).len() > 0,
        join_underscore(runs).last() == runs.last().last(),
{
}

proof fn lemma_squeeze_runs(s: Seq<char>)
    ensures
        ({
            let runs = alnum_runs(s);
            let (o, f) = squeeze(s);
            &&& forall|k: int|
                0 <= k < runs.len() ==> (#[trigger] runs[k]).len() > 0 && is_ascii_alphanumeric_spec(
                    runs[k].last(),
                )
            &&& f <==> (runs.len() > 0 && s.len() > 0 && !is_ascii_alphanumeric_spec(s.last()))
            &&& o == if f {
                join_underscore(runs).push('_')
            } else {
                join_underscore(runs)
            }
            &&& (s.len() > 0 && is_ascii_alphanumeric_spec(s.last())) ==> runs.len() > 0
        }),
    decreases s.len(),
{
    if s.len() > 0 {
        let p = s.drop_last();
        lemma_squeeze_runs(p);
        let runs = alnum_runs(p);
        let c = s.last();
        if p.len() > 0 {
            assert(s[s.len() - 2] == p.last());
        }
        if is_ascii_alphanumeric_spec(c) {
            if s.len() >= 2 && is_ascii_alphanumeric_spec(s[s.len() - 2]) && runs.len() > 0 {
                lemma_join_extend(runs, c);
                let r2 = runs.update(runs.len() - 1, runs.last().push(c));
                assert forall|k: int| 0 <= k < r2.len() implies (#[trigger] r2[k]).len() > 0
                    && is_ascii_alphanumeric_spec(r2[k].last()) by {
                    if k < runs.len() - 1 {
                        assert(r2[k] == runs[k]);
                    }
                }
            } else {
                lemma_join_push(runs, c);
                let r2 = runs.push(seq![c]);
                assert forall|k: int| 0 <= k < r2.len() implies (#[trigger] r2[k]).len() > 0
                    && is_ascii_alphanumeric_spec(r2[k].last()) by {
                    if k < runs.len() {
                        assert(r2[k] == runs[k]);
                    }
                }
            }
        } else {
            if runs.len() > 0 {
                lemma_join_last(runs);
            }
        }
    }
}

/// A generated id, stated directly: the maximal runs of ASCII letters and
/// digits of the lowercased name, joined by single underscores. So it is
/// made only of ASCII letters, digits and underscores, has no underscore at
/// either end and never two side by side, and holds the letters and digits
/// of the lowercased name in their order.
pub proof fn lemma_sanitize_shape(name: Seq<char>)
    ensures
        ({
            let id = sanitize_spec(name);
            &&& forall|i: int| 0 <= i < id.len() ==> is_id_char(#[trigger] id[i])
            &&& id.len() > 0 ==> id[0] != '_' && id.last() != '_'
            &&& no_double_underscore(id)
            &&& alnum_chars(id) == alnum_chars(lowercase_chars(name))
            &&& id == join_underscore(alnum_runs(lowercase_chars(name)))
        }),
{
    let lowered = lowercase_chars(name);
    let x = squeeze(lowered).0;
    lemma_squeeze_shape(lowered);
    lemma_squeeze_chars(lowered);
    lemma_strip_leading(x, 0);
    assert(x.subrange(0, x.len() as int) =~= x);
    assert(strip_leading_underscores(x) == x);
    let k = if x.len() > 0 && x.last() == '_' {
        x.len() - 1
    } else {
        x.len() as int
    };
    if k < x.len() && k > 0 {
        assert(x[k - 1] != '_');
    }
    lemma_strip_trailing(x, k);
    let id = x.subrange(0, k);
    assert(sanitize_spec(name) == id);
    if k < x.len() {
        assert(x.drop_last() =~= id);
        assert(alnum_chars(x) == alnum_chars(x.drop_last()));
    } else {
        assert(id =~= x);
    }
    assert forall|i: int| 0 <= i < id.len() implies is_id_char(#[trigger] id[i]) by {
        assert(id[i] == x[i]);
    }
    assert forall|i: int| 0 <= i < id.len() - 1 && #[trigger] id[i] == '_' implies id[i + 1]
        != '_' by {
        assert(id[i] == x[i]);
        assert(id[i + 1] == x[i + 1]);
    }
    if id.len() > 0 {
        assert(id[0] == x[0]);
        assert(id.last() == x[k - 1]);
    }
    lemma_squeeze_runs(lowered);
    let runs = alnum_runs(lowered);
    if runs.len() > 0 {
        lemma_join_last(runs);
    }
    if squeeze(lowered).1 {
        assert(x.last() == '_');
        assert(id =~= join_underscore(runs));
    } else {
        assert(id =~= x);
    }
}

proof fn lemma_strip_leading_chars(s: Seq<char>)
    requires
        forall|i: int| 0 <= i < s.len() ==> is_id_char(#[trigger] s[i]),
    ensures
        forall|i: int|
            0 <= i < strip_leading_underscores(s).len() ==> is_id_char(
                #[trigger] strip_leading_underscores(s)[i],
            ),
    decreases s.len(),
{
    if s.len() > 0 && s[0] == '_' {
        assert forall|i: int| 0 <= i < s.drop_first().len() implies is_id_char(
            #[trigger] s.drop_first()[i],
        ) by {
            assert(s.drop_first()[i] == s[i + 1]);
        }
        lemma_strip_leading_chars(s.drop_first());
        assert(strip_leading_underscores(s) == strip_leading_underscores(s.drop_first()));
    } else {
        assert(strip_leading_underscores(s) == s);
    }
}

proof fn lemma_strip_trailing_chars(s: Seq<char>)
    requires
        forall|i: int| 0 <= i < s.len() ==> is_id_char(#[trigger] s[i]),
    ensures
        forall|i: int|
            0 <= i < strip_trailing_underscores(s).len() ==> is_id_char(
                #[trigger] strip_trailing_underscores(s)[i],
            ),
    decreases s.len(),
{
    if s.len() > 0 && s.last() == '_' {
        assert forall|i: int| 0 <= i < s.drop_last().len() implies is_id_char(
            #[trigger] s.drop_last()[i],
        ) by {
            assert(s.drop_last()[i] == s[i]);
        }
        lemma_strip_trailing_chars(s.drop_last());
        assert(strip_trailing_underscores(s) == strip_trailing_underscores(s.drop_last()));
    } else {
        assert(strip_trailing_underscores(s) == s);
    }
}

proof fn lemma_decimal_digits(n: nat)
    ensures
        forall|i: int| 0 <= i < decimal(n).len() ==> is_id_char(#[trigger] decimal(n)[i]),
    decreases n,
{
    if n >= 10 {
        lemma_decimal_digits(n / 10);
        assert forall|i: int| 0 <= i < decimal(n).len() implies is_id_char(#[trigger] decimal(n)[i]) by {
            if i < decimal(n / 10).len() {
                assert(decimal(n)[i] == decimal(n / 10)[i]);
            }
        }
    }
}

/// A non-empty text of id characters is not blank.
proof fn lemma_id_chars_not_blank(s: Seq<char>)
    requires
        s.len() > 0,
        forall|i: int| 0 <= i < s.len() ==> is_id_char(#[trigger] s[i]),
    ensures
        !is_blank(s),
{
    assert(is_id_char(s[0]));
    assert(!crate::text::is_white_space(s[0]));
}

/// Generated ids are made of id characters and are never empty.
proof fn lemma_unique_id_chars(name: Seq<char>, used: Seq<Seq<char>>)
    ensures
        unique_id_spec(name, used).len() > 0,
        forall|i: int|
            0 <= i < unique_id_spec(name, used).len() ==> is_id_char(
                #[trigger] unique_id_spec(name, used)[i],
            ),
{
    let lowered = lowercase_chars(name);
    lemma_squeeze_chars(lowered);
    lemma_strip_leading_chars(squeeze(lowered).0);
    lemma_strip_trailing_chars(strip_leading_underscores(squeeze(lowered).0));
    let base = id_base(name);
    if sanitize_spec(name).len() == 0 {
        reveal_strlit("track");
        assert(base =~= seq!['t', 'r', 'a', 'c', 'k']);
    }
    assert(forall|i: int| 0 <= i < base.len() ==> is_id_char(#[trigger] base[i]));
    assert(base.len() > 0);
    if used.contains(base) {
        let id = unique_id_spec(name, used);
        lemma_first_free_shape(base, used, 2);
        let k = choose|k: nat| id == id_candidate(base, k);
        lemma_decimal_digits(k);
        lemma_decimal_nonempty(k);
        assert forall|i: int| 0 <= i < id.len() implies is_id_char(#[trigger] id[i]) by {
            if i < base.len() {
                assert(id[i] == base[i]);
            } else if i == base.len() {
                assert(id[i] == '_');
            } else {
                assert(id[i] == decimal(k)[i - base.len() - 1]);
            }
        }
    }
}

proof fn lemma_first_free_shape(base: Seq<char>, used: Seq<Seq<char>>, k: nat)
    ensures
        exists|j: nat| first_free_candidate(base, used, k) == id_candidate(base, j),
    decreases used.len() + 2 - k,
{
    if k > used.len() + 1 {
        assert(first_free_candidate(base, used, k) == id_candidate(base, k));
    } else if !used.contains(id_candidate(base, k)) {
        assert(first_free_candidate(base, used, k) == id_candidate(base, k));
    } else {
        lemma_first_free_shape(base, used, k + 1);
    }
}

proof fn lemma_first_free_fresh(base: Seq<char>, used: Seq<Seq<char>>, k: nat)
    requires
        k >= 2,
        used.contains(base),
        forall|j: nat| 2 <= j < k ==> used.contains(#[trigger] id_candidate(base, j)),
    ensures
        !used.contains(first_free_candidate(base, used, k)),
    decreases used.len() + 2 - k,
{
    if k > used.len() + 1 {
        if used.contains(id_candidate(base, k)) {
            assert forall|j: nat| 2 <= j < k + 1 implies used.contains(#[trigger] id_candidate(base, j)) by {}
            lemma_candidates_bound(base, used, k + 1);
        }
    } else if used.contains(id_candidate(base, k)) {
        assert forall|j: nat| 2 <= j < k + 1 implies used.contains(#[trigger] id_candidate(base, j)) by {}
        lemma_first_free_fresh(base, used, k + 1);
    }
}

/// The id given to a name is not among the ids already taken.
pub proof fn lemma_unique_id_is_fresh(name: Seq<char>, used: Seq<Seq<char>>)
    ensures
        !used.contains(unique_id_spec(name, used)),
{
    let base = id_base(name);
    if used.contains(base) {
        lemma_first_free_fresh(base, used, 2);
    }
}

proof fn lemma_first_free_smallest(base: Seq<char>, used: Seq<Seq<char>>, k: nat)
    requires
        k >= 2,
        used.contains(base),
        forall|j: nat| 2 <= j < k ==> used.contains(#[trigger] id_candidate(base, j)),
    ensures
        exists|n: nat|
            n >= k && first_free_candidate(base, used, k) == base + seq!['_'] + decimal(n) && forall|
                j: nat,
            | 2 <= j < n ==> used.contains(#[trigger] id_candidate(base, j)),
    decreases used.len() + 2 - k,
{
    if k <= used.len() + 1 && used.contains(id_candidate(base, k)) {
        assert forall|j: nat| 2 <= j < k + 1 implies used.contains(#[trigger] id_candidate(base, j)) by {}
        lemma_first_free_smallest(base, used, k + 1);
    } else {
        assert(first_free_candidate(base, used, k) == base + seq!['_'] + decimal(k));
    }
}

/// How a track's id is chosen. The base is the sanitized name, or `track`
/// when nothing of the name is left. A base not yet taken is the id.
/// Otherwise the id is the base, `_` and the smallest number `n >= 2` for
/// which that is not taken: every smaller such alternative is taken. The
/// id is never one already taken.
pub proof fn lemma_unique_id_choice(name: Seq<char>, used: Seq<Seq<char>>)
    ensures
        ({
            let base = if sanitize_spec(name).len() == 0 {
                "track"@
            } else {
                sanitize_spec(name)
            };
            let id = unique_id_spec(name, used);
            &&& !used.contains(id)
            &&& !used.contains(base) ==> id == base
            &&& used.contains(base) ==> exists|n: nat|
                n >= 2 && id == base + seq!['_'] + decimal(n) && forall|j: nat|
                    2 <= j < n ==> used.contains(#[trigger] (base + seq!['_'] + decimal(j)))
        }),
{
    lemma_unique_id_is_fresh(name, used);
    let base = id_base(name);
    if used.contains(base) {
        lemma_first_free_smallest(base, used, 2);
        let n = choose|n: nat|
            n >= 2 && first_free_candidate(base, used, 2) == base + seq!['_'] + decimal(n) && forall|
                j: nat,
            | 2 <= j < n ==> used.contains(#[trigger] id_candidate(base, j));
        assert forall|j: nat| 2 <= j < n implies used.contains(
            #[trigger] (base + seq!['_'] + decimal(j)),
        ) by {
            assert(used.contains(id_candidate(base, j)));
        }
    }
}

/// A generated track, whatever its id, name and file, as validation sees
/// its other settings.
pub open spec fn generated_shape(t: TrackModel, k: int) -> bool {
    &&& t.key == Some(seq![generated_key_chars()[k]])
    &&& t.mode == PlaybackMode::Toggle
    &&& !t.looping
    &&& t.start_at == 0
    &&& t.stop_before_end == 0
    &&& t.fade_in is None
    &&& t.fade_out is None
    &&& t.volume == UNIT_GAIN
    &&& t.midi_note is None
    &&& t.midi_volume_cc is None
}

proof fn lemma_generated_tracks(
    files: Seq<Seq<char>>,
    i: int,
    used: Seq<Seq<char>>,
    base_dir: Seq<char>,
    cwd: Option<Seq<char>>,
)
    requires
        0 <= i <= files.len(),
        generated_tracks_spec(files, i, used, base_dir, cwd) is Ok,
    ensures
        ({
            let ts = generated_tracks_spec(files, i, used, base_dir, cwd)->Ok_0;
            &&& ts.len() == files.len() - i
            &&& forall|k: int| 0 <= k < ts.len() ==> generated_shape(#[trigger] ts[k], i + k)
            &&& forall|k: int|
                0 <= k < ts.len() ==> (#[trigger] ts[k]).name == track_name_spec(
                    files[i + k],
                    (i + k) as nat,
                )
            &&& forall|k: int|
                0 <= k < ts.len() ==> path_for_config_spec(files[i + k], base_dir, cwd) == Ok::<
                    Seq<char>,
                    ErrorModel,
                >((#[trigger] ts[k]).file)
            &&& forall|k: int| 0 <= k < ts.len() ==> !used.contains(#[trigger] ts[k].id)
            &&& forall|k: int| 0 <= k < ts.len() ==> !is_blank(#[trigger] ts[k].id)
            &&& forall|k: int, l: int| 0 <= k < l < ts.len() ==> ts[k].id != ts[l].id
        }),
    decreases files.len() - i,
{
    if i < files.len() {
        let name = track_name_spec(files[i], i as nat);
        let id = unique_id_spec(name, used);
        lemma_unique_id_is_fresh(name, used);
        lemma_unique_id_chars(name, used);
        lemma_id_chars_not_blank(id);
        let rest = generated_tracks_spec(files, i + 1, used.push(id), base_dir, cwd);
        lemma_generated_tracks(files, i + 1, used.push(id), base_dir, cwd);
        let file = path_for_config_spec(files[i], base_dir, cwd)->Ok_0;
        let x = rest->Ok_0;
        let ts = seq![generated_track(id, name, file, i)] + x;
        assert(generated_tracks_spec(files, i, used, base_dir, cwd)->Ok_0 == ts);
        assert forall|k: int| 0 <= k < ts.len() implies generated_shape(#[trigger] ts[k], i + k) by {
            if k > 0 {
                assert(ts[k] == x[k - 1]);
                assert(generated_shape(x[k - 1], i + 1 + (k - 1)));
            }
        }
        assert forall|k: int| 0 <= k < ts.len() implies (#[trigger] ts[k]).name == track_name_spec(
            files[i + k],
            (i + k) as nat,
        ) && path_for_config_spec(files[i + k], base_dir, cwd) == Ok::<Seq<char>, ErrorModel>(
            ts[k].file,
        ) by {
            if k > 0 {
                assert(ts[k] == x[k - 1]);
                assert(x[k - 1].name == track_name_spec(files[i + 1 + (k - 1)], (i + 1 + (k - 1)) as nat));
                assert(path_for_config_spec(files[i + 1 + (k - 1)], base_dir, cwd) == Ok::<
                    Seq<char>,
                    ErrorModel,
                >(x[k - 1].file));
            }
        }
        assert forall|k: int| 0 <= k < ts.len() implies !used.contains(#[trigger] ts[k].id) by {
            if k > 0 {
                assert(ts[k] == x[k - 1]);
                assert(!used.push(id).contains(x[k - 1].id));
                if used.contains(x[k - 1].id) {
                    let w = choose|w: int| 0 <= w < used.len() && used[w] == x[k - 1].id;
                    assert(used.push(id)[w] == x[k - 1].id);
                }
            }
        }
        assert forall|k: int| 0 <= k < ts.len() implies !is_blank(#[trigger] ts[k].id) by {
            if k > 0 {
                assert(ts[k] == x[k - 1]);
            }
        }
        assert forall|k: int, l: int| 0 <= k < l < ts.len() implies ts[k].id != ts[l].id by {
            assert(ts[l] == x[l - 1]);
            if k == 0 {
                assert(!used.push(id).contains(x[l - 1].id));
                assert(used.push(id)[used.len() as int] == id);
            } else {
                assert(ts[k] == x[k - 1]);
            }
        }
    }
}

proof fn lemma_generated_keys_distinct(a: int, b: int)
    requires
        0 <= a < b < 34,
    ensures
        generated_key_chars()[a] != generated_key_chars()[b],
{
    let keys = generated_key_chars();
    assert(keys[0] == '1' && keys[1] == '2' && keys[2] == '3' && keys[3] == '4' && keys[4] == '5'
        && keys[5] == '6' && keys[6] == '7' && keys[7] == '8' && keys[8] == '9' && keys[9] == '0'
        && keys[10] == 'w' && keys[11] == 'e' && keys[12] == 'r' && keys[13] == 't' && keys[14]
        == 'y' && keys[15] == 'u' && keys[16] == 'i' && keys[17] == 'o' && keys[18] == 'p'
        && keys[19] == 'a' && keys[20] == 's' && keys[21] == 'd' && keys[22] == 'f' && keys[23]
        == 'g' && keys[24] == 'h' && keys[25] == 'j' && keys[26] == 'k' && keys[27] == 'l'
        && keys[28] == 'z' && keys[29] == 'c' && keys[30] == 'v' && keys[31] == 'b' && keys[32]
        == 'n' && keys[33] == 'm');
}

proof fn lemma_no_track_error_from(
    tracks: Seq<TrackModel>,
    i: int,
    base_dir: Seq<char>,
)
    requires
        0 <= i <= tracks.len(),
        forall|k: int| i <= k < tracks.len() ==> crate::config::track_error(tracks, k, base_dir, None) is None,
    ensures
        crate::config::first_track_error(tracks, i, base_dir, None) is None,
    decreases tracks.len() - i,
{
    if i < tracks.len() {
        lemma_no_track_error_from(tracks, i + 1, base_dir);
    }
}

/// A generated show passes validation (without looking at the files),
/// provided each generated name is not blank and each path is not empty.
pub proof fn lemma_generated_show_is_valid(
    audio_dir: Seq<char>,
    entries: Seq<AudioDirEntry>,
    config_path: Seq<char>,
    cwd: Option<Seq<char>>,
    order: Seq<usize>,
    base_dir: Seq<char>,
)
    requires
        is_stable_order(sort_keys_spec(audio_files_spec(entries)), order),
        generation_spec(audio_dir, entries, config_path, cwd, order) is Ok,
        forall|k: int|
            0 <= k < generation_spec(audio_dir, entries, config_path, cwd, order)->Ok_0.tracks.len()
                ==> !is_blank(
                #[trigger] generation_spec(audio_dir, entries, config_path, cwd, order)->Ok_0.tracks[k].name,
            ) && generation_spec(audio_dir, entries, config_path, cwd, order)->Ok_0.tracks[k].file.len()
                > 0,
    ensures
        crate::config::validation_error(
            generation_spec(audio_dir, entries, config_path, cwd, order)->Ok_0,
            base_dir,
            None,
        ) is None,
{
    let files = audio_files_spec(entries);
    let sorted = order.map_values(|k: usize| files[k as int]);
    let c = generation_spec(audio_dir, entries, config_path, cwd, order)->Ok_0;
    let bd = crate::config::base_dir_spec(config_path);
    lemma_generated_tracks(sorted, 0, Seq::empty(), bd, cwd);
    let ts = c.tracks;
    assert(ts == generated_tracks_spec(sorted, 0, Seq::empty(), bd, cwd)->Ok_0);
    assert(ts.len() == files.len());
    assert forall|k: int| 0 <= k < ts.len() implies crate::config::track_error(ts, k, base_dir, None) is None by {
        let t = ts[k];
        assert(generated_shape(t, k));
        assert(!crate::config::id_used_before(ts, k, t.id)) by {
            if crate::config::id_used_before(ts, k, t.id) {
                let j = choose|j: int| 0 <= j < k && (#[trigger] ts[j]).id == t.id;
                assert(ts[j].id != ts[k].id);
            }
        }
        let key = seq![generated_key_chars()[k]];
        assert(!is_blank(key)) by {
            let c0 = generated_key_chars()[k];
            assert(key[0] == c0);
            lemma_generated_key_not_white(k);
        }
        assert(!crate::config::key_used_before(ts, k, key)) by {
            if crate::config::key_used_before(ts, k, key) {
                let j = choose|j: int| 0 <= j < k && (#[trigger] ts[j]).key == Some(key);
                assert(generated_shape(ts[j], j));
                assert(seq![generated_key_chars()[j]][0] == key[0]);
                lemma_generated_keys_distinct(j, k);
            }
        }
        assert(!crate::numeric::seconds_is_negative(0));
        assert(crate::numeric::gain_in_unit_range(UNIT_GAIN));
    }
    lemma_no_track_error_from(ts, 0, base_dir);
}

/// The shape of a generated show. No audio file gives `NoAudioFiles`, more
/// than 34 give `TooManyAudioFiles`. Otherwise a generated show has schema
/// version 1 and one track per audio file, in the order of their lowercased
/// file names; track `k` refers to the `k`-th file so ordered, is named
/// after its stem (`Track <k+1>` without one), gets the `k`-th default key,
/// plays in toggle mode without looping, offsets, fades or MIDI at volume
/// 1.0, and the ids are non-blank and pairwise distinct.
pub proof fn lemma_generated_show_shape(
    audio_dir: Seq<char>,
    entries: Seq<AudioDirEntry>,
    config_path: Seq<char>,
    cwd: Option<Seq<char>>,
    order: Seq<usize>,
)
    requires
        is_stable_order(sort_keys_spec(audio_files_spec(entries)), order),
    ensures
        ({
            let files = audio_files_spec(entries);
            let sorted = order.map_values(|k: usize| files[k as int]);
            let r = generation_spec(audio_dir, entries, config_path, cwd, order);
            &&& files.len() == 0 ==> r == Err::<ConfigModel, ErrorModel>(
                ErrorModel::NoAudioFiles { dir: audio_dir },
            )
            &&& files.len() > 34 ==> r == Err::<ConfigModel, ErrorModel>(
                ErrorModel::TooManyAudioFiles { found: files.len() as usize, available: 34 },
            )
            &&& forall|k: int, l: int|
                0 <= k < l < sorted.len() ==> text_lt(
                    sort_key_spec(#[trigger] sorted[k]),
                    sort_key_spec(#[trigger] sorted[l]),
                ) || sort_key_spec(sorted[k]) == sort_key_spec(sorted[l])
            &&& r is Ok ==> {
                let ts = r->Ok_0.tracks;
                &&& r->Ok_0.schema_version == 1
                &&& ts.len() == files.len()
                &&& forall|k: int| 0 <= k < ts.len() ==> generated_shape(#[trigger] ts[k], k)
                &&& forall|k: int|
                    0 <= k < ts.len() ==> (#[trigger] ts[k]).name == track_name_spec(
                        sorted[k],
                        k as nat,
                    )
                &&& forall|k: int|
                    0 <= k < ts.len() ==> path_for_config_spec(
                        sorted[k],
                        crate::config::base_dir_spec(config_path),
                        cwd,
                    ) == Ok::<Seq<char>, ErrorModel>((#[trigger] ts[k]).file)
                &&& forall|k: int| 0 <= k < ts.len() ==> !is_blank(#[trigger] ts[k].id)
                &&& forall|k: int, l: int| 0 <= k < l < ts.len() ==> ts[k].id != ts[l].id
            }
        }),
{
    let files = audio_files_spec(entries);
    let keys = sort_keys_spec(files);
    let sorted = order.map_values(|k: usize| files[k as int]);
    assert forall|k: int, l: int| 0 <= k < l < sorted.len() implies text_lt(
        sort_key_spec(#[trigger] sorted[k]),
        sort_key_spec(#[trigger] sorted[l]),
    ) || sort_key_spec(sorted[k]) == sort_key_spec(sorted[l]) by {
        assert(ranks_before(keys, order[k] as int, order[l] as int));
        assert(keys[order[k] as int] == sort_key_spec(sorted[k]));
        assert(keys[order[l] as int] == sort_key_spec(sorted[l]));
    }
    let r = generation_spec(audio_dir, entries, config_path, cwd, order);
    if r is Ok {
        let bd = crate::config::base_dir_spec(config_path);
        lemma_generated_tracks(sorted, 0, Seq::empty(), bd, cwd);
        assert(r->Ok_0.tracks == generated_tracks_spec(sorted, 0, Seq::empty(), bd, cwd)->Ok_0);
    }
}

/// Some entry of the listing is a regular file of a supported format at
/// `path`.
pub open spec fn listed_audio_file(entries: Seq<AudioDirEntry>, path: Seq<char>) -> bool {
    exists|j: int|
        0 <= j < entries.len() && (#[trigger] entries[j]).is_file && is_supported_audio_file_spec(
            path,
        ) && entries[j].path@ == path
}

/// The audio files of a listing are exactly the paths of its entries that
/// are regular files of a supported format, in listing order.
pub proof fn lemma_audio_files_of_listing(entries: Seq<AudioDirEntry>)
    ensures
        forall|k: int|
            0 <= k < audio_files_spec(entries).len() ==> listed_audio_file(
                entries,
                #[trigger] audio_files_spec(entries)[k],
            ),
        forall|j: int|
            0 <= j < entries.len() && (#[trigger] entries[j]).is_file && is_supported_audio_file_spec(
                entries[j].path@,
            ) ==> audio_files_spec(entries).contains(entries[j].path@),
        audio_files_spec(entries).len() <= entries.len(),
    decreases entries.len(),
{
    if entries.len() == 0 {
        assert(audio_files_spec(entries).len() == 0);
    } else {
        let p = entries.drop_last();
        lemma_audio_files_of_listing(p);
        let rest = audio_files_spec(p);
        let all = audio_files_spec(entries);
        let e = entries.last();
        assert forall|k: int| 0 <= k < all.len() implies listed_audio_file(entries, #[trigger] all[k]) by {
            if k < rest.len() {
                assert(all[k] == rest[k]);
                assert(listed_audio_file(p, rest[k]));
                let j = choose|j: int|
                    0 <= j < p.len() && (#[trigger] p[j]).is_file && is_supported_audio_file_spec(
                        rest[k],
                    ) && p[j].path@ == rest[k];
                assert(entries[j] == p[j]);
            } else {
                assert(entries[entries.len() - 1] == e);
                assert(all[k] == e.path@);
            }
        }
        assert forall|j: int|
            0 <= j < entries.len() && (#[trigger] entries[j]).is_file && is_supported_audio_file_spec(
                entries[j].path@,
            ) implies all.contains(entries[j].path@) by {
            if j < p.len() {
                assert(entries[j] == p[j]);
                let w = choose|w: int| 0 <= w < rest.len() && rest[w] == p[j].path@;
                assert(all[w] == rest[w]);
            } else {
                assert(all[all.len() - 1] == e.path@);
            }
        }
    }
}

/// A file's name lowercased, the empty text when it has none.
pub open spec fn lowercased_file_name(path: Seq<char>) -> Seq<char> {
    if let Some(file_name) = file_name_of(path) {
        str_lowercase(file_name)
    } else {
        Seq::<char>::empty()
    }
}

/// The order in which a show is generated: the audio files sorted by their
/// lowercased file names, in character order, files whose lowercased names
/// are equal keeping their listing order. Track `k` of a generated show is
/// made from the `k`-th file in that order (its name is that file's stem,
/// and its file that file's path as the show refers to it).
pub proof fn lemma_generation_order(
    audio_dir: Seq<char>,
    entries: Seq<AudioDirEntry>,
    config_path: Seq<char>,
    cwd: Option<Seq<char>>,
)
    requires
        audio_files_spec(entries).len() <= usize::MAX,
    ensures
        ({
            let files = audio_files_spec(entries);
            let order = stable_order_spec(sort_keys_spec(files));
            let r = generation_spec(audio_dir, entries, config_path, cwd, order);
            &&& order.len() == files.len()
            &&& forall|p: int| 0 <= p < order.len() ==> #[trigger] order[p] < files.len()
            &&& forall|k: int, l: int|
                0 <= k < l < order.len() ==> text_lt(
                    lowercased_file_name(files[#[trigger] order[k] as int]),
                    lowercased_file_name(files[#[trigger] order[l] as int]),
                ) || (lowercased_file_name(files[order[k] as int]) == lowercased_file_name(
                    files[order[l] as int],
                ) && order[k] < order[l])
            &&& r is Ok ==> {
                let ts = r->Ok_0.tracks;
                &&& ts.len() == files.len()
                &&& forall|k: int|
                    0 <= k < ts.len() && file_stem_of(files[order[k] as int]) is Some
                        ==> (#[trigger] ts[k]).name == file_stem_of(files[order[k] as int])->0
                &&& forall|k: int|
                    0 <= k < ts.len() ==> (#[trigger] ts[k]).name == track_name_spec(
                        files[order[k] as int],
                        k as nat,
                    ) && path_for_config_spec(
                        files[order[k] as int],
                        crate::config::base_dir_spec(config_path),
                        cwd,
                    ) == Ok::<Seq<char>, ErrorModel>(ts[k].file)
            }
        }),
{
    let files = audio_files_spec(entries);
    let keys = sort_keys_spec(files);
    let order = stable_order_spec(keys);
    crate::sort::lemma_stable_order_exists(keys);
    assert forall|k: int, l: int| 0 <= k < l < order.len() implies text_lt(
        lowercased_file_name(files[#[trigger] order[k] as int]),
        lowercased_file_name(files[#[trigger] order[l] as int]),
    ) || (lowercased_file_name(files[order[k] as int]) == lowercased_file_name(
        files[order[l] as int],
    ) && order[k] < order[l]) by {
        assert(ranks_before(keys, order[k] as int, order[l] as int));
        assert(keys[order[k] as int] == lowercased_file_name(files[order[k] as int]));
        assert(keys[order[l] as int] == lowercased_file_name(files[order[l] as int]));
    }
    lemma_generated_show_shape(audio_dir, entries, config_path, cwd, order);
    let sorted = order.map_values(|k: usize| files[k as int]);
    assert forall|k: int| 0 <= k < order.len() implies sorted[k] == files[order[k] as int] by {}
}

proof fn lemma_generated_key_not_white(k: int)
    requires
        0 <= k < 34,
    ensures
        !crate::text::is_white_space(generated_key_chars()[k]),
        is_id_char(generated_key_chars()[k]),
{
    let keys = generated_key_chars();
    assert(keys[0] == '1' && keys[1] == '2' && keys[2] == '3' && keys[3] == '4' && keys[4] == '5'
        && keys[5] == '6' && keys[6] == '7' && keys[7] == '8' && keys[8] == '9' && keys[9] == '0'
        && keys[10] == 'w' && keys[11] == 'e' && keys[12] == 'r' && keys[13] == 't' && keys[14]
        == 'y' && keys[15] == 'u' && keys[16] == 'i' && keys[17] == 'o' && keys[18] == 'p'
        && keys[19] == 'a' && keys[20] == 's' && keys[21] == 'd' && keys[22] == 'f' && keys[23]
        == 'g' && keys[24] == 'h' && keys[25] == 'j' && keys[26] == 'k' && keys[27] == 'l'
        && keys[28] == 'z' && keys[29] == 'c' && keys[30] == 'v' && keys[31] == 'b' && keys[32]
        == 'n' && keys[33] == 'm');
    assert(is_id_char(keys[k]));
}

} // verus!
