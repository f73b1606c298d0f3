//! The metadata of a track: what an audio file says of it, and the cleaned form for a second lookup.
use vstd::prelude::*;

use crate::pattern;
use crate::text;

verus! {

#[derive(Debug)]
pub struct TrackTags {
    pub title: String,
    pub artist: String,
    pub album: String,
    pub duration_secs: i64,
}

/// The contents of a `TrackTags`.
pub struct TagsView {
    pub title: Seq<char>,
    pub artist: Seq<char>,
    pub album: Seq<char>,
    pub duration_secs: i64,
}

impl View for TrackTags {
    type V = TagsView;

    open spec fn view(&self) -> TagsView {
        TagsView {
            title: self.title@,
            artist: self.artist@,
            album: self.album@,
            duration_secs: self.duration_secs,
        }
    }
}

impl Clone for TrackTags {
    fn clone(&self) -> (r: Self)
        ensures
            r@ == self@,
    {
        TrackTags {
            title: self.title.clone(),
            artist: self.artist.clone(),
            album: self.album.clone(),
            duration_secs: self.duration_secs,
        }
    }
}

/// No text and no length.
pub open spec fn empty_tags() -> TagsView {
    TagsView {
        title: Seq::empty(),
        artist: Seq::empty(),
        album: Seq::empty(),
        duration_secs: 0,
    }
}

impl Default for TrackTags {
    fn default() -> (r: Self)
        ensures
            r@ == empty_tags(),
    {
        TrackTags {
            title: String::new(),
            artist: String::new(),
            album: String::new(),
            duration_secs: 0,
        }
    }
}

/// A metadata value without the release remark at its end. A blank value stays as it is.
pub open spec fn cleaned_value(value: Seq<char>) -> Seq<char> {
    if text::is_blank(value) {
        value
    } else {
        text::trimmed(
            pattern::first_match_replaced(pattern::RELEASE_REMARK@, value, Seq::empty()),
        )
    }
}

/// Tags with the release remarks taken off title and album.
pub open spec fn cleaned_tags(tags: TagsView) -> TagsView {
    TagsView {
        title: cleaned_value(tags.title),
        artist: tags.artist,
        album: cleaned_value(tags.album),
        duration_secs: tags.duration_secs,
    }
}

/// `out` is a beginning of `value`, without the white space around it.
pub open spec fn is_trimmed_beginning(out: Seq<char>, value: Seq<char>) -> bool {
    exists|k: int| 0 <= k <= value.len() && out == text::trimmed(#[trigger] value.take(k))
}

/// Takes the release remark off the end of a title. Of a value that is not blank, cleaning takes an
/// end and the white space around the rest, and nothing else; no end where no bracket closes there.
pub fn clean_metadata_value(value: &str) -> (r: String)
    ensures
        r@ == cleaned_value(value@),
        text::is_blank(value@) ==> r@ == value@,
        !text::is_blank(value@) ==> is_trimmed_beginning(r@, value@),
        !text::is_blank(value@) && !pattern::ends_in_bracket(value@) ==> r@ == text::trimmed(
            value@,
        ),
        r@.len() <= value@.len(),
        !text::is_blank(value@) && r@.len() > 0 ==> !text::is_white_space(r@.first())
            && !text::is_white_space(r@.last()),
{
    proof {
        text::law_trimmed(value@);
        reveal_strlit("");
        assert(""@ =~= Seq::<char>::empty());
    }
    if value.trim().is_empty() {
        return value.to_owned();
    }
    let replaced = pattern::replace_first(pattern::RELEASE_REMARK, value, "");
    proof {
        text::law_trimmed(replaced@);
        assert(replaced@ =~= value@.take(replaced@.len() as int));
    }
    text::trimmed_text(replaced.as_str())
}

impl TrackTags {
    /// The tags to look a track up under when it is not known under its own.
    pub fn cleaned(&self) -> (r: Self)
        ensures
            r@ == cleaned_tags(self@),
    {
        self.renamed(
            clean_metadata_value(self.title.as_str()),
            clean_metadata_value(self.album.as_str()),
        )
    }

    /// The tags of the same artist and length under another title and album.
    pub fn renamed(&self, title: String, album: String) -> (r: Self)
        ensures
            r@ == (TagsView { title: title@, album: album@, ..self@ }),
    {
        TrackTags { title, artist: self.artist.clone(), album, duration_secs: self.duration_secs }
    }
}

/// One metadata tag of an audio file, as it stands there.
#[derive(Debug)]
pub struct RawTag {
    pub title: Option<String>,
    pub artist: Option<String>,
    pub album_artist: Option<String>,
    pub album: Option<String>,
}

/// What was read from an audio file: its length, the tag of its format's own kind, and the first
/// tag of any kind.
#[derive(Debug)]
pub struct RawAudio {
    pub duration_secs: u64,
    pub primary_tag: Option<RawTag>,
    pub first_tag: Option<RawTag>,
}

#[derive(Debug, Clone, Copy, PartialEq, Eq, Structural)]
pub enum TagError {
    NoTag,
    MissingTitle,
    MissingArtist,
}

/// What an error says.
pub open spec fn error_message(e: TagError) -> Seq<char> {
    match e {
        TagError::NoTag => "no metadata tag found"@,
        TagError::MissingTitle => "missing title tag"@,
        TagError::MissingArtist => "missing artist tag"@,
    }
}

impl TagError {
    /// What the error says.
    pub fn message(&self) -> (r: String)
        ensures
            r@ == error_message(*self),
    {
        match self {
            TagError::NoTag => "no metadata tag found".to_owned(),
            TagError::MissingTitle => "missing title tag".to_owned(),
            TagError::MissingArtist => "missing artist tag".to_owned(),
        }
    }
}

/// A field's text without the white space around it, if any is left.
pub open spec fn field_text(field: Option<String>) -> Option<Seq<char>> {
    match field {
        Some(s) => if text::is_blank(s@) {
            None
        } else {
            Some(text::trimmed(s@))
        },
        None => None,
    }
}

/// The tags that one metadata tag gives. The album artist stands in only where there is no artist
/// field at all.
pub open spec fn tags_of(tag: RawTag, duration_secs: u64) -> Result<TagsView, TagError> {
    let artist = if tag.artist is Some {
        tag.artist
    } else {
        tag.album_artist
    };
    match (field_text(tag.title), field_text(artist)) {
        (None, _) => Err(TagError::MissingTitle),
        (_, None) => Err(TagError::MissingArtist),
        (Some(title), Some(artist)) => Ok(
            TagsView {
                title,
                artist,
                album: match tag.album {
                    Some(s) => text::trimmed(s@),
                    None => Seq::empty(),
                },
                duration_secs: duration_secs as i64,
            },
        ),
    }
}

/// The tags of an audio file: those of its primary tag, else of its first.
pub open spec fn tags_of_audio(raw: RawAudio) -> Result<TagsView, TagError> {
    match (raw.primary_tag, raw.first_tag) {
        (Some(tag), _) => tags_of(tag, raw.duration_secs),
        (None, Some(tag)) => tags_of(tag, raw.duration_secs),
        (None, None) => Err(TagError::NoTag),
    }
}

fn read_field(field: &Option<String>) -> (r: Option<String>)
    ensures
        text::option_text(r) == field_text(*field),
{
    match field {
        Some(s) => {
            proof {
                text::law_trimmed(s@);
            }
            let t = text::trimmed_text(s.as_str());
            if t.as_str().is_empty() {
                None
            } else {
                Some(t)
            }
        },
        None => None,
    }
}

fn read_tag(tag: &RawTag, duration_secs: u64) -> (r: Result<TrackTags, TagError>)
    ensures
        match r {
            Ok(tags) => tags_of(*tag, duration_secs) == Ok::<TagsView, TagError>(tags@),
            Err(e) => tags_of(*tag, duration_secs) == Err::<TagsView, TagError>(e),
        },
{
    let title = match read_field(&tag.title) {
        Some(title) => title,
        None => return Err(TagError::MissingTitle),
    };
    let named = if tag.artist.is_some() {
        read_field(&tag.artist)
    } else {
        read_field(&tag.album_artist)
    };
    let artist = match named {
        Some(artist) => artist,
        None => return Err(TagError::MissingArtist),
    };
    let album = match &tag.album {
        Some(s) => text::trimmed_text(s.as_str()),
        None => String::new(),
    };
    Ok(TrackTags { title, artist, album, duration_secs: duration_secs as i64 })
}

/// The track's tags, from what was read of its file. Title and artist must not be blank.
pub fn read_tags(raw: &RawAudio) -> (r: Result<TrackTags, TagError>)
    ensures
        match r {
            Ok(tags) => tags_of_audio(*raw) == Ok::<TagsView, TagError>(tags@),
            Err(e) => tags_of_audio(*raw) == Err::<TagsView, TagError>(e),
        },
{
    match &raw.primary_tag {
        Some(tag) => read_tag(tag, raw.duration_secs),
        None => match &raw.first_tag {
            Some(tag) => read_tag(tag, raw.duration_secs),
            None => Err(TagError::NoTag),
        },
    }
}

/// A track's title and artist have text, without white space at either end.
pub proof fn law_read_tags_are_trimmed(raw: RawAudio)
    requires
        tags_of_audio(raw) is Ok,
    ensures
        ({
            let tags = tags_of_audio(raw)->Ok_0;
            &&& tags.title.len() > 0
            &&& tags.artist.len() > 0
            &&& text::trimmed(tags.title) == tags.title
            &&& text::trimmed(tags.artist) == tags.artist
            &&& text::trimmed(tags.album) == tags.album
        }),
{
    let tag = match raw.primary_tag {
        Some(tag) => tag,
        None => raw.first_tag->0,
    };
    let artist = if tag.artist is Some {
        tag.artist
    } else {
        tag.album_artist
    };
    text::law_trimmed(tag.title->0@);
    text::law_trimmed(artist->0@);
    text::law_trimmed_is_fixed(tag.title->0@);
    text::law_trimmed_is_fixed(artist->0@);
    if tag.album is Some {
        text::law_trimmed_is_fixed(tag.album->0@);
    }
}

/// Cleaning goes by the value alone: title and album of the same text are cleaned alike, whatever
/// the other tags are. Artist and length stay as they are.
pub proof fn law_cleaning_goes_by_the_value(t: TagsView, u: TagsView)
    ensures
        t.title == u.title ==> cleaned_tags(t).title == cleaned_tags(u).title,
        t.album == u.album ==> cleaned_tags(t).album == cleaned_tags(u).album,
        t.album == u.title ==> cleaned_tags(t).album == cleaned_tags(u).title,
        cleaned_tags(t).artist == t.artist,
        cleaned_tags(t).duration_secs == t.duration_secs,
{
}

/// A title or an album that is blank is not cleaned. Any other loses what `RELEASE_REMARK` matches
/// in it, and the white space around the rest.
pub proof fn law_cleaning_takes_the_remark_off(t: TagsView)
    ensures
        text::is_blank(t.title) ==> cleaned_tags(t).title == t.title,
        !text::is_blank(t.title) ==> cleaned_tags(t).title == text::trimmed(
            pattern::first_match_replaced(pattern::RELEASE_REMARK@, t.title, Seq::empty()),
        ),
        text::is_blank(t.album) ==> cleaned_tags(t).album == t.album,
        !text::is_blank(t.album) ==> cleaned_tags(t).album == text::trimmed(
            pattern::first_match_replaced(pattern::RELEASE_REMARK@, t.album, Seq::empty()),
        ),
{
}

/// The tag that is read: the primary one, else the first.
pub open spec fn chosen_tag(raw: RawAudio) -> Option<RawTag> {
    if raw.primary_tag is Some {
        raw.primary_tag
    } else {
        raw.first_tag
    }
}

/// Tags that are read are those of the file, each from its own field, without the white space around
/// it. The album artist is read only where there is no artist field.
pub proof fn law_tags_are_those_of_the_file(raw: RawAudio)
    requires
        tags_of_audio(raw) is Ok,
    ensures
        ({
            let tags = tags_of_audio(raw)->Ok_0;
            let tag = chosen_tag(raw)->0;
            &&& chosen_tag(raw) is Some
            &&& tag.title is Some && tags.title == text::trimmed(tag.title->0@)
            &&& match (tag.artist, tag.album_artist) {
                (Some(artist), _) => tags.artist == text::trimmed(artist@),
                (None, Some(artist)) => tags.artist == text::trimmed(artist@),
                (None, None) => false,
            }
            &&& match tag.album {
                Some(album) => tags.album == text::trimmed(album@),
                None => tags.album.len() == 0,
            }
            &&& raw.duration_secs <= i64::MAX ==> tags.duration_secs == raw.duration_secs
        }),
{
}

/// Tags cannot be read where the file has no tag, where its title is missing or blank, and then
/// where its artist is.
pub proof fn law_unreadable_tags(raw: RawAudio)
    ensures
        tags_of_audio(raw) == Err::<TagsView, TagError>(TagError::NoTag) <==> raw.primary_tag is None
            && raw.first_tag is None,
        chosen_tag(raw) is Some ==> ({
            let tag = chosen_tag(raw)->0;
            let no_title = tag.title is None || text::is_blank(tag.title->0@);
            let no_artist = match (tag.artist, tag.album_artist) {
                (Some(artist), _) => text::is_blank(artist@),
                (None, Some(artist)) => text::is_blank(artist@),
                (None, None) => true,
            };
            &&& no_title <==> tags_of_audio(raw) == Err::<TagsView, TagError>(
                TagError::MissingTitle,
            )
            &&& !no_title && no_artist <==> tags_of_audio(raw) == Err::<TagsView, TagError>(
                TagError::MissingArtist,
            )
            &&& !no_title && !no_artist ==> tags_of_audio(raw) is Ok
        }),
{
}

} // verus!
