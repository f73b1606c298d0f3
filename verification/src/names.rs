//! File names: which files are audio, which are lyrics, and which lyrics go with which audio.
use vstd::prelude::*;

use crate::encoding;
use crate::paths;
use crate::pattern;
use crate::text;

verus! {

/// `bytes` is the given ASCII word, in any case.
pub open spec fn spells(bytes: Seq<u8>, word: Seq<char>) -> bool {
    &&& bytes.len() == word.len()
    &&& forall|i: int|
        0 <= i < bytes.len() ==> text::ascii_lower(#[trigger] bytes[i] as char) == word[i]
}

fn spells_word(bytes: &[u8], word: &str) -> (r: bool)
    ensures
        r == spells(bytes@, word@),
{
    let w = text::chars_of(word);
    if bytes.len() != w.len() {
        return false;
    }
    let mut i: usize = 0;
    while i < bytes.len()
        invariant
            i <= bytes@.len(),
            bytes@.len() == w@.len(),
            w@ == word@,
            forall|j: int| 0 <= j < i ==> text::ascii_lower(#[trigger] bytes@[j] as char) == w@[j],
        decreases bytes@.len() - i,
    {
        if text::lower_char(bytes[i] as char) != w[i] {
            proof {
                assert(text::ascii_lower(bytes@[i as int] as char) != word@[i as int]);
            }
            return false;
        }
        i += 1;
    }
    true
}

/// The extensions of the audio formats that are supported.
pub open spec fn is_audio_extension(ext: Seq<u8>) -> bool {
    spells(ext, "mp3"@) || spells(ext, "flac"@) || spells(ext, "m4a"@) || spells(ext, "ogg"@)
        || spells(ext, "opus"@)
}

pub open spec fn is_audio(path: Seq<u8>) -> bool {
    paths::extension_of(path) is Some && is_audio_extension(paths::extension_of(path)->0)
}

pub open spec fn is_lyrics(path: Seq<u8>) -> bool {
    paths::extension_of(path) is Some && spells(paths::extension_of(path)->0, "lrc"@)
}

/// Whether a path has the extension of a supported audio format, in any case.
pub fn is_audio_file(path: &[u8]) -> (r: bool)
    ensures
        r == is_audio(path@),
{
    match paths::path_extension(path) {
        Some(ext) => spells_word(&ext, "mp3") || spells_word(&ext, "flac") || spells_word(
            &ext,
            "m4a",
        ) || spells_word(&ext, "ogg") || spells_word(&ext, "opus"),
        None => false,
    }
}

/// Whether a path has the extension `lrc`, in any case.
pub fn is_lyrics_file(path: &[u8]) -> (r: bool)
    ensures
        r == is_lyrics(path@),
{
    match paths::path_extension(path) {
        Some(ext) => spells_word(&ext, "lrc"),
        None => false,
    }
}

/// A path's name as text; empty where it has none.
pub open spec fn name_text(path: Seq<u8>) -> Seq<char> {
    match paths::name_of(path) {
        Some(name) => paths::readable(name),
        None => Seq::empty(),
    }
}

/// A path's name as text; empty where it has none.
pub fn file_name(path: &[u8]) -> (r: String)
    ensures
        r@ == name_text(path@),
{
    match paths::path_name(path) {
        Some(name) => paths::readable_text(&name),
        None => String::new(),
    }
}

/// The name of the lyrics file that goes with an audio file.
pub open spec fn sidecar_name_of(audio: Seq<u8>) -> Seq<char> {
    match paths::stem_of(audio) {
        Some(stem) => paths::readable(stem) + ".lrc"@,
        None => "unknown.lrc"@,
    }
}

/// The name of the lyrics file that goes with an audio file: the same stem, with `.lrc`.
pub fn sidecar_name(audio: &[u8]) -> (r: String)
    ensures
        r@ == sidecar_name_of(audio@),
{
    match paths::path_stem(audio) {
        Some(stem) => paths::readable_text(&stem).concat(".lrc"),
        None => "unknown.lrc".to_owned(),
    }
}

/// The extension of lyrics files.
pub open spec fn lrc_extension() -> Seq<u8> {
    seq![108u8, 114u8, 99u8]
}

/// The path of the lyrics file that goes with an audio file.
pub open spec fn sidecar_of(audio: Seq<u8>) -> Seq<u8> {
    paths::with_extension_of(audio, lrc_extension())
}

/// The path of the lyrics file that goes with an audio file.
pub fn sidecar_path(audio: &[u8]) -> (r: Vec<u8>)
    ensures
        r@ == sidecar_of(audio@),
{
    let ext: Vec<u8> = vec![108u8, 114u8, 99u8];
    proof {
        assert(ext@ =~= lrc_extension());
    }
    paths::with_extension(audio, &ext)
}

/// The path under which lyrics are written before they take their place at `path`.
pub open spec fn draft_of(path: Seq<u8>) -> Seq<u8> {
    paths::with_extension_of(path, lrc_extension() + seq![46u8, 116u8, 109u8, 112u8])
}

/// The path under which lyrics are written before they take their place at `path`.
pub fn draft_path(path: &[u8]) -> (r: Vec<u8>)
    ensures
        r@ == draft_of(path@),
{
    let ext: Vec<u8> = vec![108u8, 114u8, 99u8, 46u8, 116u8, 109u8, 112u8];
    proof {
        assert(ext@ =~= lrc_extension() + seq![46u8, 116u8, 109u8, 112u8]);
    }
    paths::with_extension(path, &ext)
}

/// How many digits `s` starts with.
pub open spec fn leading_digits(s: Seq<char>) -> nat
    decreases s.len(),
{
    if s.len() > 0 && text::is_digit(s.first()) {
        1 + leading_digits(s.drop_first())
    } else {
        0
    }
}

/// The number that a name starts with, if it has one and it fits.
pub open spec fn track_number_in(name: Seq<char>) -> Option<u32> {
    let digits = name.take(leading_digits(name) as int);
    if digits.len() > 0 && text::decimal_value(digits) <= u32::MAX {
        Some(text::decimal_value(digits) as u32)
    } else {
        None
    }
}

/// The number that a name starts with.
pub fn track_number(name: &str) -> (r: Option<u32>)
    ensures
        r == track_number_in(name@),
{
    let v = text::chars_of(name);
    let mut n: usize = 0;
    proof {
        assert(v@.skip(0) =~= v@);
    }
    while n < v.len() && '0' <= v[n] && v[n] <= '9'
        invariant
            n <= v.len(),
            v@ == name@,
            leading_digits(v@) == n + leading_digits(v@.skip(n as int)),
            text::all_digits(v@.take(n as int)),
        decreases v.len() - n,
    {
        proof {
            let rest = v@.skip(n as int);
            assert(rest.first() == v@[n as int]);
            assert(rest.drop_first() =~= v@.skip(n + 1));
            assert forall|i: int| 0 <= i < n + 1 implies text::is_digit(
                #[trigger] v@.take(n + 1)[i],
            ) by {
                if i < n {
                    assert(v@.take(n as int)[i] == v@[i]);
                }
            }
        }
        n += 1;
    }
    proof {
        let rest = v@.skip(n as int);
        if n < v.len() {
            assert(rest.first() == v@[n as int]);
        }
        assert(leading_digits(rest) == 0);
        assert(v@.subrange(0, n as int) =~= v@.take(n as int));
    }
    if n == 0 {
        return None;
    }
    match text::digits_value(&v, 0, n, u32::MAX as u64) {
        Some(value) => Some(value as u32),
        None => None,
    }
}

/// The stem of a file name, as text.
pub open spec fn stem_text(name: Seq<char>) -> Seq<char> {
    match paths::stem_of(vstd::utf8::encode_utf8(name)) {
        Some(stem) => paths::readable(stem),
        None => Seq::empty(),
    }
}

/// The form of a file name by which files of one song are recognised: its stem without track
/// number, bracketed passages and featured artists, in lower case and without anything but letters
/// and digits.
pub open spec fn clean_name_of(name: Seq<char>) -> Seq<char> {
    let none = Seq::<char>::empty();
    let unnumbered = pattern::first_match_replaced(
        pattern::LEADING_NUMBER@,
        stem_text(name),
        none,
    );
    let unbracketed = pattern::all_matches_replaced(pattern::BRACKETED@, unnumbered, none);
    let alone = pattern::all_matches_replaced(pattern::FEATURED@, unbracketed, none);
    text::lowered(pattern::all_matches_replaced(pattern::NON_WORD@, alone, none))
}

proof fn lemma_stem_text_in_lower_case(name: Seq<char>)
    ensures
        stem_text(text::lowered(name)) == text::lowered(stem_text(name)),
{
    let p = vstd::utf8::encode_utf8(name);
    encoding::lemma_encoded_lowered(name);
    paths::lemma_stem_in_lower_case(p);
    match paths::stem_of(p) {
        Some(stem) => {
            vstd::utf8::encode_utf8_valid_utf8(name);
            paths::lemma_stem_is_valid(p);
            encoding::lemma_decoded_lowered(stem);
        },
        None => {
            assert(text::lowered(Seq::empty()) =~= Seq::<char>::empty());
        },
    }
}

/// The form of a file name by which files of one song are recognised. The case of ASCII letters
/// makes no difference to it, so two names that are the same in lower case have one form. It holds
/// no ASCII capital, no underscore and nothing that is not part of a word.
pub fn clean_name(name: &str) -> (r: String)
    ensures
        r@ == clean_name_of(name@),
        r@ == clean_name_of(text::lowered(name@)),
        forall|i: int|
            0 <= i < r@.len() ==> pattern::is_word_char(#[trigger] r@[i]) && !('A' <= r@[i] <= 'Z'),
{
    proof {
        reveal_strlit("");
        assert(""@ =~= Seq::<char>::empty());
        lemma_stem_text_in_lower_case(name@);
    }
    let stem = match paths::path_stem(name.as_bytes()) {
        Some(stem) => paths::readable_text(&stem),
        None => String::new(),
    };
    let value = pattern::replace_first(pattern::LEADING_NUMBER, stem.as_str(), "");
    let value = pattern::replace_all(pattern::BRACKETED, value.as_str(), "");
    let value = pattern::replace_all(pattern::FEATURED, value.as_str(), "");
    let value = pattern::replace_all(pattern::NON_WORD, value.as_str(), "");
    proof {
        let low = text::lowered(value@);
        assert(text::lowered(low) =~= low);
        assert forall|i: int| 0 <= i < low.len() implies pattern::is_word_char(#[trigger] low[i])
            && !('A' <= low[i] <= 'Z') by {
            assert(low[i] == text::ascii_lower(value@[i]));
            assert(pattern::is_word_char(value@[i]));
        }
    }
    text::to_ascii_lowercase(value.as_str())
}

/// Names that differ only in their extension have one clean form.
pub proof fn law_extension_does_not_matter(stem: Seq<char>, one: Seq<char>, other: Seq<char>)
    requires
        stem.len() > 0,
        forall|i: int| 0 <= i < stem.len() ==> stem[i] != '/',
        one.len() > 0,
        forall|i: int| 0 <= i < one.len() ==> one[i] != '/' && one[i] != '.',
        other.len() > 0,
        forall|i: int| 0 <= i < other.len() ==> other[i] != '/' && other[i] != '.',
    ensures
        stem_text(stem + seq!['.'] + one) == stem,
        clean_name_of(stem + seq!['.'] + one) == clean_name_of(stem + seq!['.'] + other),
{
    lemma_stem_text_of_plain_name(stem, one);
    lemma_stem_text_of_plain_name(stem, other);
}

proof fn lemma_stem_text_of_plain_name(stem: Seq<char>, ext: Seq<char>)
    requires
        stem.len() > 0,
        forall|i: int| 0 <= i < stem.len() ==> stem[i] != '/',
        ext.len() > 0,
        forall|i: int| 0 <= i < ext.len() ==> ext[i] != '/' && ext[i] != '.',
    ensures
        stem_text(stem + seq!['.'] + ext) == stem,
{
    let s = vstd::utf8::encode_utf8(stem);
    let e = vstd::utf8::encode_utf8(ext);
    let dot = seq!['.'];
    encoding::lemma_encoded_parts(stem + dot, ext);
    encoding::lemma_encoded_parts(stem, dot);
    assert(vstd::utf8::is_ascii_chars(dot));
    vstd::utf8::is_ascii_chars_encode_utf8(dot);
    assert(vstd::utf8::encode_utf8(dot) =~= seq![paths::DOT]);
    encoding::lemma_encoded_without(stem, '/');
    encoding::lemma_encoded_without(ext, '/');
    encoding::lemma_encoded_without(ext, '.');
    paths::lemma_stem_of_plain_name(s, e);
    vstd::utf8::encode_utf8_valid_utf8(stem);
    vstd::utf8::encode_utf8_decode_utf8(stem);
}

/// Where `a` first stands in `s`.
pub open spec fn first_index<A>(s: Seq<A>, a: A) -> Option<int>
    decreases s.len(),
{
    if s.len() == 0 {
        None
    } else {
        match first_index(s.drop_last(), a) {
            Some(i) => Some(i),
            None => if s.last() == a {
                Some(s.len() - 1)
            } else {
                None
            },
        }
    }
}

/// What it means that `a` first stands at an index, or nowhere.
pub proof fn lemma_first_index<A>(s: Seq<A>, a: A)
    ensures
        match first_index(s, a) {
            Some(i) => 0 <= i < s.len() && s[i] == a && forall|j: int| 0 <= j < i ==> s[j] != a,
            None => forall|j: int| 0 <= j < s.len() ==> s[j] != a,
        },
    decreases s.len(),
{
    if s.len() > 0 {
        let t = s.drop_last();
        lemma_first_index(t, a);
        assert(forall|j: int| 0 <= j < t.len() ==> s[j] == t[j]);
    }
}

/// An index that holds `a`, with none before it that does, is the first.
pub proof fn lemma_is_first_index<A>(s: Seq<A>, a: A, i: int)
    requires
        0 <= i < s.len(),
        s[i] == a,
        forall|j: int| 0 <= j < i ==> s[j] != a,
    ensures
        first_index(s, a) == Some(i),
{
    lemma_first_index(s, a);
    let k = first_index(s, a);
    assert(k is Some);
    assert(s[k->0] == a);
}

/// Of several candidates, the first with the track number that is sought, else the first with the
/// clean name that is sought.
pub open spec fn picked(
    track: Option<u32>,
    clean: Seq<char>,
    tracks: Seq<Option<u32>>,
    cleans: Seq<Seq<char>>,
) -> Option<int> {
    let by_track = if track is Some {
        first_index(tracks, track)
    } else {
        None
    };
    if by_track is Some {
        by_track
    } else {
        first_index(cleans, clean)
    }
}

fn index_of_track(track: Option<u32>, tracks: &Vec<Option<u32>>) -> (r: Option<usize>)
    ensures
        match r {
            Some(i) => first_index(tracks@, track) == Some(i as int),
            None => first_index(tracks@, track) is None,
        },
{
    let mut i: usize = 0;
    while i < tracks.len()
        invariant
            i <= tracks.len(),
            forall|j: int| 0 <= j < i ==> tracks@[j] != track,
        decreases tracks.len() - i,
    {
        let same = match (tracks[i], track) {
            (Some(a), Some(b)) => a == b,
            (None, None) => true,
            _ => false,
        };
        if same {
            proof {
                lemma_is_first_index(tracks@, track, i as int);
            }
            return Some(i);
        }
        i += 1;
    }
    proof {
        lemma_first_index(tracks@, track);
    }
    None
}

/// Where a text first stands among others.
pub fn index_of_text(sought: &str, among: &Vec<String>) -> (r: Option<usize>)
    ensures
        match r {
            Some(i) => first_index(text::texts(among@), sought@) == Some(i as int) && i
                < among.len(),
            None => first_index(text::texts(among@), sought@) is None,
        },
{
    let ghost all = text::texts(among@);
    let mut i: usize = 0;
    while i < among.len()
        invariant
            i <= among.len(),
            all == text::texts(among@),
            forall|j: int| 0 <= j < i ==> all[j] != sought@,
        decreases among.len() - i,
    {
        if text::str_eq(among[i].as_str(), sought) {
            proof {
                assert(all[i as int] == sought@);
                lemma_is_first_index(all, sought@, i as int);
            }
            return Some(i);
        }
        proof {
            assert(all[i as int] != sought@);
        }
        i += 1;
    }
    proof {
        lemma_first_index(all, sought@);
    }
    None
}

/// Picks the candidate that goes with an audio file, from the track numbers and the clean names of
/// the file and of the candidates.
pub fn pick_match(
    track: Option<u32>,
    clean: &str,
    tracks: &Vec<Option<u32>>,
    cleans: &Vec<String>,
) -> (r: Option<usize>)
    requires
        tracks.len() == cleans.len(),
    ensures
        (match r {
            Some(i) => Some(i as int),
            None => None,
        }) == picked(track, clean@, tracks@, text::texts(cleans@)),
        r matches Some(i) ==> i < tracks.len(),
{
    if track.is_some() {
        let found = index_of_track(track, tracks);
        proof {
            lemma_first_index(tracks@, track);
        }
        if found.is_some() {
            return found;
        }
    }
    index_of_text(clean, cleans)
}

/// The index of the lyrics file, among files of the given names, that goes with an audio file.
pub open spec fn match_index(audio: Seq<u8>, names: Seq<Seq<char>>) -> Option<int> {
    picked(
        track_number_in(name_text(audio)),
        clean_name_of(name_text(audio)),
        names.map_values(|n: Seq<char>| track_number_in(n)),
        names.map_values(|n: Seq<char>| clean_name_of(n)),
    )
}

/// The lyrics file that goes with an audio file is one of those given, and agrees with it in track
/// number or in clean name.
pub proof fn law_match_agrees(audio: Seq<u8>, names: Seq<Seq<char>>)
    requires
        match_index(audio, names) is Some,
    ensures
        ({
            let i = match_index(audio, names)->0;
            &&& 0 <= i < names.len()
            &&& (track_number_in(names[i]) is Some && track_number_in(names[i]) == track_number_in(
                name_text(audio),
            )) || clean_name_of(names[i]) == clean_name_of(name_text(audio))
        }),
{
    let tracks = names.map_values(|n: Seq<char>| track_number_in(n));
    let cleans = names.map_values(|n: Seq<char>| clean_name_of(n));
    lemma_first_index(tracks, track_number_in(name_text(audio)));
    lemma_first_index(cleans, clean_name_of(name_text(audio)));
}

/// Where the lyrics file that goes with an audio file stands among files of the given names: the
/// first with the same track number, else the first with the same clean name.
pub fn find_orphan_index(audio_path: &[u8], lrc_names: &Vec<String>) -> (r: Option<usize>)
    ensures
        match r {
            Some(i) => match_index(audio_path@, text::texts(lrc_names@)) == Some(i as int) && i
                < lrc_names.len(),
            None => match_index(audio_path@, text::texts(lrc_names@)) is None,
        },
{
    let name = file_name(audio_path);
    let track = track_number(name.as_str());
    let clean = clean_name(name.as_str());
    let ghost names = text::texts(lrc_names@);
    let mut tracks: Vec<Option<u32>> = Vec::new();
    let mut cleans: Vec<String> = Vec::new();
    let mut i: usize = 0;
    while i < lrc_names.len()
        invariant
            i <= lrc_names.len(),
            tracks.len() == i,
            cleans.len() == i,
            forall|j: int| 0 <= j < i ==> #[trigger] tracks@[j] == track_number_in(lrc_names@[j]@),
            forall|j: int| 0 <= j < i ==> (#[trigger] cleans@[j])@ == clean_name_of(lrc_names@[j]@),
        decreases lrc_names.len() - i,
    {
        tracks.push(track_number(lrc_names[i].as_str()));
        cleans.push(clean_name(lrc_names[i].as_str()));
        i += 1;
    }
    proof {
        assert(tracks@ =~= names.map_values(|n: Seq<char>| track_number_in(n)));
        assert(text::texts(cleans@) =~= names.map_values(|n: Seq<char>| clean_name_of(n)));
    }
    pick_match(track, clean.as_str(), &tracks, &cleans)
}

/// The name of the lyrics file that goes with an audio file though it is named differently.
pub fn find_orphan_match(audio_path: &[u8], lrc_names: &Vec<String>) -> (r: Option<String>)
    ensures
        match r {
            Some(name) => match_index(audio_path@, text::texts(lrc_names@)) matches Some(i) && 0
                <= i < lrc_names@.len() && name@ == lrc_names@[i]@,
            None => match_index(audio_path@, text::texts(lrc_names@)) is None,
        },
{
    match find_orphan_index(audio_path, lrc_names) {
        Some(at) => Some(lrc_names[at].clone()),
        None => None,
    }
}

/// The lyrics file of an audio file stands in the same directory, under the same stem, and is a
/// lyrics file, not an audio file.
pub proof fn law_sidecar_stands_beside(audio: Seq<u8>)
    requires
        paths::name_of(audio) is Some,
    ensures
        paths::parent_of(sidecar_of(audio)) == paths::parent_of(audio),
        paths::stem_of(sidecar_of(audio)) == paths::stem_of(audio),
        is_lyrics(sidecar_of(audio)),
        !is_audio(sidecar_of(audio)),
{
    paths::law_with_extension_stays_beside(audio, lrc_extension());
    paths::law_with_extension_reads_back(audio, lrc_extension());
    law_audio_is_not_lyrics(sidecar_of(audio));
    reveal_strlit("lrc");
    assert(spells(lrc_extension(), "lrc"@));
}

/// No file is both audio and lyrics.
pub proof fn law_audio_is_not_lyrics(path: Seq<u8>)
    ensures
        !(is_audio(path) && is_lyrics(path)),
{
    reveal_strlit("lrc");
    reveal_strlit("mp3");
    reveal_strlit("flac");
    reveal_strlit("m4a");
    reveal_strlit("ogg");
    reveal_strlit("opus");
    if is_audio(path) && is_lyrics(path) {
        let ext = paths::extension_of(path)->0;
        assert(text::ascii_lower(ext[0] as char) == 'l');
    }
}

/// A draft of lyrics stands beside them, and a scan takes it neither for audio nor for lyrics.
pub proof fn law_draft_is_passed_over(path: Seq<u8>)
    requires
        paths::name_of(path) is Some,
    ensures
        paths::parent_of(draft_of(path)) == paths::parent_of(path),
        !is_audio(draft_of(path)),
        !is_lyrics(draft_of(path)),
{
    let ext = lrc_extension() + seq![46u8, 116u8, 109u8, 112u8];
    let tmp = seq![116u8, 109u8, 112u8];
    paths::law_with_extension_stays_beside(path, ext);
    let stem = paths::stem_of_name(paths::name_of(path)->0);
    let name = stem + seq![paths::DOT] + ext;
    let longer = stem + seq![paths::DOT] + lrc_extension();
    assert(name =~= longer + seq![paths::DOT] + tmp);
    paths::lemma_last_dot_of_parts(longer, tmp);
    assert(paths::extension_of(draft_of(path)) == Some(tmp)) by {
        assert(name.skip(paths::last_dot(name) + 1) =~= tmp);
    }
    reveal_strlit("lrc");
    reveal_strlit("mp3");
    reveal_strlit("flac");
    reveal_strlit("m4a");
    reveal_strlit("ogg");
    reveal_strlit("opus");
    assert(text::ascii_lower(tmp[0] as char) == 't');
}

/// A lyrics file that was written for an audio file with a name in UTF-8 is the one that a scan
/// looks for.
pub proof fn law_written_lyrics_are_recognised(audio: Seq<u8>)
    requires
        paths::name_of(audio) is Some,
        vstd::utf8::valid_utf8(paths::stem_of(audio)->0),
    ensures
        name_text(sidecar_of(audio)) == sidecar_name_of(audio),
{
    let stem = paths::stem_of(audio)->0;
    let tail = seq![paths::DOT] + lrc_extension();
    let name = stem + tail;
    paths::law_with_extension_stays_beside(audio, lrc_extension());
    assert(name =~= stem + seq![paths::DOT] + lrc_extension());
    reveal_strlit(".lrc");
    assert(vstd::utf8::is_ascii_chars(".lrc"@));
    vstd::utf8::is_ascii_chars_encode_utf8(".lrc"@);
    assert(vstd::utf8::encode_utf8(".lrc"@) =~= tail);
    vstd::utf8::encode_utf8_valid_utf8(".lrc"@);
    vstd::utf8::encode_utf8_decode_utf8(".lrc"@);
    vstd::utf8::valid_utf8_concat(stem, tail);
    vstd::utf8::is_char_boundary_iff_not_is_continuation_byte(name, stem.len() as int);
    assert(!vstd::utf8::is_continuation_byte(name[stem.len() as int]));
    vstd::utf8::decode_utf8_split(name, stem.len() as int);
    assert(name.subrange(0, stem.len() as int) =~= stem);
    assert(name.subrange(stem.len() as int, name.len() as int) =~= tail);
}

/// The lyrics file of an audio file has its directory and its stem, and the extension `lrc`; the
/// draft of a lyrics file has `.tmp` after that.
pub proof fn law_sidecar_spelled_out(dir: Seq<u8>, stem: Seq<u8>, ext: Seq<u8>)
    requires
        paths::is_dir_prefix(dir),
        paths::is_name_part(stem),
        paths::is_name_part(ext),
        forall|i: int| 0 <= i < ext.len() ==> ext[i] != paths::DOT,
    ensures
        sidecar_of(dir + stem + seq![46u8] + ext) == dir + stem + seq![46u8, 108u8, 114u8, 99u8],
        draft_of(dir + stem + seq![46u8, 108u8, 114u8, 99u8]) == dir + stem + seq![
            46u8,
            108u8,
            114u8,
            99u8,
            46u8,
            116u8,
            109u8,
            112u8,
        ],
        sidecar_name_of(dir + stem + seq![46u8] + ext) == paths::readable(stem) + ".lrc"@,
        vstd::utf8::valid_utf8(stem) ==> sidecar_name_of(dir + stem + seq![46u8] + ext)
            == vstd::utf8::decode_utf8(stem) + ".lrc"@,
{
    let lrc = lrc_extension();
    let tmp = lrc + seq![46u8, 116u8, 109u8, 112u8];
    paths::law_path_falls_apart(dir, stem, ext, lrc);
    paths::law_path_falls_apart(dir, stem, lrc, tmp);
    assert(dir + stem + seq![46u8] + lrc =~= dir + stem + seq![46u8, 108u8, 114u8, 99u8]);
    assert(dir + stem + seq![46u8] + tmp =~= dir + stem + seq![
        46u8,
        108u8,
        114u8,
        99u8,
        46u8,
        116u8,
        109u8,
        112u8,
    ]);
}

/// A file is audio where its extension is `mp3`, `flac`, `m4a`, `ogg` or `opus`, and lyrics where it
/// is `lrc`, in any case; a file without an extension is neither.
pub proof fn law_files_are_known_by_extension(
    dir: Seq<u8>,
    stem: Seq<u8>,
    ext: Seq<u8>,
    bare: Seq<u8>,
)
    requires
        paths::is_dir_prefix(dir),
        paths::is_name_part(stem),
        paths::is_name_part(ext),
        forall|i: int| 0 <= i < ext.len() ==> ext[i] != paths::DOT,
        paths::is_name_part(bare),
        forall|i: int| 0 <= i < bare.len() ==> bare[i] != paths::DOT,
    ensures
        ({
            let p = dir + stem + seq![46u8] + ext;
            let low = encoding::lowered_bytes(ext);
            &&& is_audio(p) <==> low == seq![109u8, 112u8, 51u8] || low == seq![
                102u8,
                108u8,
                97u8,
                99u8,
            ] || low == seq![109u8, 52u8, 97u8] || low == seq![111u8, 103u8, 103u8] || low == seq![
                111u8,
                112u8,
                117u8,
                115u8,
            ]
            &&& is_lyrics(p) <==> low == seq![108u8, 114u8, 99u8]
        }),
        !is_audio(dir + bare),
        !is_lyrics(dir + bare),
{
    paths::law_path_falls_apart(dir, stem, ext, ext);
    if bare == seq![paths::DOT] {
        assert(bare[0] == paths::DOT);
    }
    paths::law_path_without_extension(dir, bare, ext);
    reveal_strlit("lrc");
    reveal_strlit("mp3");
    reveal_strlit("flac");
    reveal_strlit("m4a");
    reveal_strlit("ogg");
    reveal_strlit("opus");
    lemma_spells(ext, "mp3"@, seq![109u8, 112u8, 51u8]);
    lemma_spells(ext, "flac"@, seq![102u8, 108u8, 97u8, 99u8]);
    lemma_spells(ext, "m4a"@, seq![109u8, 52u8, 97u8]);
    lemma_spells(ext, "ogg"@, seq![111u8, 103u8, 103u8]);
    lemma_spells(ext, "opus"@, seq![111u8, 112u8, 117u8, 115u8]);
    lemma_spells(ext, "lrc"@, seq![108u8, 114u8, 99u8]);
}

proof fn lemma_spells(bytes: Seq<u8>, word: Seq<char>, ascii: Seq<u8>)
    requires
        word.len() == ascii.len(),
        forall|i: int| 0 <= i < word.len() ==> word[i] == #[trigger] ascii[i] as char,
    ensures
        spells(bytes, word) <==> encoding::lowered_bytes(bytes) == ascii,
{
    let low = encoding::lowered_bytes(bytes);
    assert forall|i: int| 0 <= i < bytes.len() implies text::ascii_lower(
        #[trigger] bytes[i] as char,
    ) == low[i] as char by {
        assert(low[i] == encoding::lower_byte(bytes[i]));
    }
    if spells(bytes, word) {
        assert forall|i: int| 0 <= i < low.len() implies low[i] == ascii[i] by {
            assert(text::ascii_lower(bytes[i] as char) == word[i]);
            assert(word[i] == ascii[i] as char);
        }
        assert(low =~= ascii);
    }
    if low == ascii {
        assert forall|i: int| 0 <= i < bytes.len() implies text::ascii_lower(
            #[trigger] bytes[i] as char,
        ) == word[i] by {
            assert(word[i] == ascii[i] as char);
        }
    }
}

/// The text of a file name is what it encodes where it is in UTF-8, and else what stands for it,
/// wherever the file stands.
pub proof fn law_name_text(dir: Seq<u8>, stem: Seq<u8>, ext: Seq<u8>)
    requires
        paths::is_dir_prefix(dir),
        paths::is_name_part(stem),
        paths::is_name_part(ext),
        forall|i: int| 0 <= i < ext.len() ==> ext[i] != paths::DOT,
    ensures
        ({
            let name = stem + seq![46u8] + ext;
            let p = dir + stem + seq![46u8] + ext;
            &&& vstd::utf8::valid_utf8(name) ==> name_text(p) == vstd::utf8::decode_utf8(name)
            &&& !vstd::utf8::valid_utf8(name) ==> name_text(p) == paths::lossy_text(name)
        }),
{
    paths::law_path_falls_apart(dir, stem, ext, ext);
}

proof fn lemma_leading_digits(digits: Seq<char>, rest: Seq<char>)
    requires
        text::all_digits(digits),
        rest.len() == 0 || !text::is_digit(rest.first()),
    ensures
        leading_digits(digits + rest) == digits.len(),
    decreases digits.len(),
{
    let s = digits + rest;
    if digits.len() == 0 {
        assert(s =~= rest);
    } else {
        assert(s.first() == digits[0]);
        assert(s.drop_first() =~= digits.drop_first() + rest);
        assert forall|i: int| 0 <= i < digits.len() - 1 implies text::is_digit(
            #[trigger] digits.drop_first()[i],
        ) by {
            assert(text::is_digit(digits[i + 1]));
        }
        lemma_leading_digits(digits.drop_first(), rest);
    }
}

/// The track number of a name is the number that its first digits write, all of them, where there
/// are any and the number is below 2^32.
pub proof fn law_track_number_leads_the_name(digits: Seq<char>, rest: Seq<char>)
    requires
        forall|i: int| 0 <= i < digits.len() ==> '0' <= #[trigger] digits[i] <= '9',
        rest.len() == 0 || !('0' <= rest.first() <= '9'),
    ensures
        digits.len() == 0 ==> track_number_in(digits + rest) is None,
        digits.len() > 0 && text::decimal_value(digits) < 0x1_0000_0000 ==> track_number_in(
            digits + rest,
        ) == Some(text::decimal_value(digits) as u32),
        text::decimal_value(digits) >= 0x1_0000_0000 ==> track_number_in(digits + rest) is None,
{
    lemma_leading_digits(digits, rest);
    assert((digits + rest).take(digits.len() as int) =~= digits);
}

/// What is left of a name: of its stem, first the leading number goes, then what stands in brackets,
/// then a featured artist, then all that is not part of a word; the rest is in lower case.
pub proof fn law_clean_name_step_by_step(
    stem: Seq<char>,
    ext: Seq<char>,
    numberless: Seq<char>,
    bracketless: Seq<char>,
    alone: Seq<char>,
    words: Seq<char>,
)
    requires
        stem.len() > 0,
        forall|i: int| 0 <= i < stem.len() ==> stem[i] != '/',
        ext.len() > 0,
        forall|i: int| 0 <= i < ext.len() ==> ext[i] != '/' && ext[i] != '.',
        numberless == pattern::first_match_replaced(
            pattern::LEADING_NUMBER@,
            stem,
            Seq::empty(),
        ),
        bracketless == pattern::all_matches_replaced(
            pattern::BRACKETED@,
            numberless,
            Seq::empty(),
        ),
        alone == pattern::all_matches_replaced(pattern::FEATURED@, bracketless, Seq::empty()),
        words == pattern::all_matches_replaced(pattern::NON_WORD@, alone, Seq::empty()),
    ensures
        clean_name_of(stem + seq!['.'] + ext) == text::lowered(words),
{
    lemma_stem_text_of_plain_name(stem, ext);
}

/// The lyrics file that goes with an audio file is the first of the same track number, where the
/// audio file has one and some lyrics file has the same. Otherwise it is the first of the same clean
/// name, if there is one.
pub proof fn law_match_is_the_first(audio: Seq<u8>, names: Seq<Seq<char>>)
    ensures
        ({
            let number = track_number_in(name_text(audio));
            let by_number = number is Some && exists|j: int|
                0 <= j < names.len() && track_number_in(#[trigger] names[j]) == number;
            let clean = clean_name_of(name_text(audio));
            match match_index(audio, names) {
                Some(i) => {
                    &&& 0 <= i < names.len()
                    &&& by_number ==> track_number_in(names[i]) == number && forall|j: int|
                        0 <= j < i ==> track_number_in(#[trigger] names[j]) != number
                    &&& !by_number ==> clean_name_of(names[i]) == clean && forall|j: int|
                        0 <= j < i ==> clean_name_of(#[trigger] names[j]) != clean
                },
                None => !by_number && forall|j: int|
                    0 <= j < names.len() ==> clean_name_of(#[trigger] names[j]) != clean,
            }
        }),
{
    let number = track_number_in(name_text(audio));
    let clean = clean_name_of(name_text(audio));
    let tracks = names.map_values(|n: Seq<char>| track_number_in(n));
    let cleans = names.map_values(|n: Seq<char>| clean_name_of(n));
    lemma_first_index(tracks, number);
    lemma_first_index(cleans, clean);
    assert(forall|j: int| 0 <= j < names.len() ==> tracks[j] == track_number_in(#[trigger] names[j]));
    assert(forall|j: int| 0 <= j < names.len() ==> cleans[j] == clean_name_of(#[trigger] names[j]));
}

/// A path without a name has no text for one, and its lyrics would be of no known name.
pub proof fn law_nameless_path(path: Seq<u8>)
    requires
        paths::name_of(path) is None,
    ensures
        name_text(path).len() == 0,
        sidecar_name_of(path) == "unknown.lrc"@,
        sidecar_of(path) == path,
        !is_audio(path),
        !is_lyrics(path),
{
}

/// A name without a dot is cleaned as a whole.
pub proof fn law_clean_name_without_extension(name: Seq<char>, ext: Seq<char>)
    requires
        name.len() > 0,
        forall|i: int| 0 <= i < name.len() ==> name[i] != '/' && name[i] != '.',
        ext.len() > 0,
        forall|i: int| 0 <= i < ext.len() ==> ext[i] != '/' && ext[i] != '.',
    ensures
        clean_name_of(name) == clean_name_of(name + seq!['.'] + ext),
{
    let p = vstd::utf8::encode_utf8(name);
    let none = Seq::<u8>::empty();
    lemma_stem_text_of_plain_name(name, ext);
    encoding::lemma_encoded_without(name, '/');
    encoding::lemma_encoded_without(name, '.');
    assert(none + p =~= p);
    if p == seq![paths::DOT] {
        assert(p[0] == paths::DOT);
    }
    paths::law_path_without_extension(none, p, none);
    vstd::utf8::encode_utf8_valid_utf8(name);
    vstd::utf8::encode_utf8_decode_utf8(name);
}

} // verus!
