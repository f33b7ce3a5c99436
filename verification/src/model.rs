//! The records of the feed: a page of the listing and the media items on it.

use vstd::prelude::*;
use crate::text::{append_chars, from_chars, lowercase, replace, same_text, to_chars};
use crate::text::{lowercased, replace_all};

verus! {

/// Why an item cannot be named or fetched.
#[derive(Clone, Copy, Debug, PartialEq, Eq, Structural)]
pub enum ClassificationError {
    /// The media type is neither `photo` nor `movie`.
    UnknownMediaType,
    /// The content type has no file extension assigned.
    UnknownContentType,
    /// A movie that carries no video address.
    MissingVideoUrl,
}

/// One page of the media listing.
#[derive(Clone, Debug)]
pub struct Root {
    pub has_next: bool,
    pub has_prev: bool,
    pub current_page: i32,
    pub media_files: Vec<Mediafile>,
}

/// One photo or video of the album. Instants are seconds since the Unix epoch.
#[derive(Clone, Debug)]
pub struct Mediafile {
    pub id: i64,
    pub uuid: String,
    pub user_id: String,
    pub media_type: String,
    pub original_hash: String,
    pub has_comment: bool,
    pub comments: Vec<Comment>,
    pub took_at: i64,
    pub audience_type: String,
    pub media_width: i32,
    pub media_height: i32,
    pub media_device_model: Option<String>,
    pub device_file_path: Option<String>,
    pub video_duration: i32,
    pub content_type: String,
    pub origin: String,
    pub thumbnail_generated: bool,
    pub expiring_url: String,
    pub expiring_thumb_url: String,
    pub expiring_video_url: Option<String>,
}

/// A comment on a media item. Instants are seconds since the Unix epoch.
#[derive(Clone, Debug)]
pub struct Comment {
    pub id: i32,
    pub media_file_id: i64,
    pub user: User,
    pub body: String,
    pub created_at: i64,
    pub updated_at: i64,
    pub is_deleted: bool,
}

/// A member of the album.
#[derive(Clone, Debug)]
pub struct User {
    pub id: String,
    pub nickname: String,
}

/// The file extension that a content type stands for.
pub open spec fn extension_of(content_type: Seq<char>) -> Option<Seq<char>> {
    if content_type == "image/jpeg"@ {
        Some("jpg"@)
    } else if content_type == "image/png"@ {
        Some("png"@)
    } else if content_type == "video/mp4"@ {
        Some("mp4"@)
    } else {
        None
    }
}

/// The address a video is fetched from, given the address of its playlist.
pub open spec fn video_download_url(playlist_url: Seq<char>) -> Seq<char> {
    replace_all(playlist_url + "/download"@, "media_files_playlist"@, "media_files"@)
}

/// The path of a file: the directory, a slash, the stem, a dot and the
/// extension.
pub open spec fn path_of(directory: Seq<char>, stem: Seq<char>, extension: Seq<char>) -> Seq<
    char,
> {
    directory + seq!['/'] + stem + seq!['.'] + extension
}

/// The local path of an item: its file is named by the lower-case form of
/// its identifier.
pub open spec fn local_path(directory: Seq<char>, uuid: Seq<char>, extension: Seq<char>) -> Seq<
    char,
> {
    path_of(directory, lowercased(uuid), extension)
}

/// The file extension that a content type stands for; a content type without
/// one is an error, never a guess.
pub fn extension(content_type: &str) -> (r: Result<String, ClassificationError>)
    ensures
        match r {
            Ok(e) => extension_of(content_type@) == Some(e@),
            Err(e) => extension_of(content_type@) is None && e
                == ClassificationError::UnknownContentType,
        },
{
    if same_text(content_type, "image/jpeg") {
        Ok("jpg".to_owned())
    } else if same_text(content_type, "image/png") {
        Ok("png".to_owned())
    } else if same_text(content_type, "video/mp4") {
        Ok("mp4".to_owned())
    } else {
        Err(ClassificationError::UnknownContentType)
    }
}

/// The path of the file `stem`.`extension` in `directory`.
pub fn file_path(directory: &str, stem: &str, extension: &str) -> (r: String)
    ensures
        r@ == path_of(directory@, stem@, extension@),
{
    let mut path = to_chars(directory);
    path.push('/');
    append_chars(&mut path, &to_chars(stem));
    path.push('.');
    append_chars(&mut path, &to_chars(extension));
    assert(path@ =~= path_of(directory@, stem@, extension@));
    from_chars(&path)
}

/// The three content types that have an extension are `image/jpeg` with
/// `jpg`, `image/png` with `png` and `video/mp4` with `mp4`; every other
/// content type has none.
pub proof fn lemma_extension_table(content_type: Seq<char>)
    ensures
        content_type == "image/jpeg"@ ==> extension_of(content_type) == Some("jpg"@),
        content_type == "image/png"@ ==> extension_of(content_type) == Some("png"@),
        content_type == "video/mp4"@ ==> extension_of(content_type) == Some("mp4"@),
        content_type != "image/jpeg"@ && content_type != "image/png"@ && content_type
            != "video/mp4"@ ==> extension_of(content_type) is None,
{
    reveal_strlit("image/jpeg");
    reveal_strlit("image/png");
    reveal_strlit("video/mp4");
    assert("image/jpeg"@.len() == 10);
    assert("image/png"@.len() == 9);
    assert("video/mp4"@[0] == 'v');
    assert("image/png"@[0] == 'i');
}

impl Mediafile {
    /// The item is a video.
    pub open spec fn spec_is_video(&self) -> bool {
        self.content_type@ == "video/mp4"@
    }

    /// The address the item is fetched from.
    pub open spec fn spec_download_url(&self) -> Result<Seq<char>, ClassificationError> {
        if self.media_type@ == "photo"@ {
            Ok(self.expiring_url@)
        } else if self.media_type@ == "movie"@ {
            match self.expiring_video_url {
                Some(url) => Ok(video_download_url(url@)),
                None => Err(ClassificationError::MissingVideoUrl),
            }
        } else {
            Err(ClassificationError::UnknownMediaType)
        }
    }

    /// The local path of the item under `base_path`.
    pub open spec fn spec_suggested_file_name(&self, base_path: Seq<char>) -> Result<
        Seq<char>,
        ClassificationError,
    > {
        match extension_of(self.content_type@) {
            Some(extension) => Ok(local_path(base_path, self.uuid@, extension)),
            None => Err(ClassificationError::UnknownContentType),
        }
    }

    /// The item can be fetched and named: its media type is `photo`, or
    /// `movie` with a video address, and its content type has an extension.
    pub open spec fn well_formed(&self) -> bool {
        &&& self.media_type@ == "photo"@ || (self.media_type@ == "movie"@
            && self.expiring_video_url is Some)
        &&& extension_of(self.content_type@) is Some
    }

    /// Whether the item is a video.
    pub fn is_video(&self) -> (r: bool)
        ensures
            r == self.spec_is_video(),
    {
        same_text(self.content_type.as_str(), "video/mp4")
    }

    /// The modification time that the item's file is stamped with: the
    /// instant at which the item was taken, as whole seconds since the Unix
    /// epoch and the nanoseconds beyond them, which are zero.
    pub fn modification_time(&self) -> (r: (i64, u32))
        ensures
            r == (self.took_at, 0u32),
    {
        (self.took_at, 0)
    }

    /// The address the item is fetched from: a photo's own address, or the
    /// address derived from a movie's playlist.
    pub fn download_url(&self) -> (r: Result<String, ClassificationError>)
        ensures
            match r {
                Ok(url) => self.spec_download_url() == Ok::<Seq<char>, ClassificationError>(url@),
                Err(e) => self.spec_download_url() == Err::<Seq<char>, ClassificationError>(e),
            },
            self.well_formed() ==> r is Ok,
    {
        if same_text(self.media_type.as_str(), "photo") {
            Ok(self.expiring_url.clone())
        } else if same_text(self.media_type.as_str(), "movie") {
            match &self.expiring_video_url {
                Some(url) => {
                    let mut address = to_chars(url.as_str());
                    append_chars(&mut address, &to_chars("/download"));
                    let from = to_chars("media_files_playlist");
                    let to = to_chars("media_files");
                    Ok(from_chars(&replace(&address, &from, &to)))
                },
                None => Err(ClassificationError::MissingVideoUrl),
            }
        } else {
            Err(ClassificationError::UnknownMediaType)
        }
    }

    /// The local path of the item under `base_path`, named by its lower-case
    /// identifier and the extension of its content type.
    pub fn suggested_file_name(&self, base_path: &str) -> (r: Result<String, ClassificationError>)
        ensures
            match r {
                Ok(path) => self.spec_suggested_file_name(base_path@) == Ok::<
                    Seq<char>,
                    ClassificationError,
                >(path@),
                Err(e) => self.spec_suggested_file_name(base_path@) == Err::<
                    Seq<char>,
                    ClassificationError,
                >(e),
            },
            self.well_formed() ==> r is Ok,
    {
        match extension(self.content_type.as_str()) {
            Ok(ending) => {
                let stem = lowercase(self.uuid.as_str());
                Ok(file_path(base_path, stem.as_str(), ending.as_str()))
            },
            Err(e) => Err(e),
        }
    }
}

} // verus!
