use family_album::model::{extension, file_path};
use family_album::model::{ClassificationError, Comment, Mediafile, Root, User};
use family_album::planner::target_of;

fn item(uuid: &str, media_type: &str, content_type: &str, video_url: Option<&str>) -> Mediafile {
    Mediafile {
        id: 1,
        uuid: uuid.to_string(),
        user_id: "1".to_string(),
        media_type: media_type.to_string(),
        original_hash: "7".to_string(),
        has_comment: false,
        comments: Vec::new(),
        took_at: 1651363200,
        audience_type: "family".to_string(),
        media_width: 720,
        media_height: 1280,
        media_device_model: None,
        device_file_path: None,
        video_duration: 30,
        content_type: content_type.to_string(),
        origin: "seasonal_osm".to_string(),
        thumbnail_generated: true,
        expiring_url: "https://example.jpg".to_string(),
        expiring_thumb_url: "https://example.jpg".to_string(),
        expiring_video_url: video_url.map(|s| s.to_string()),
    }
}

#[test]
fn movie_address_is_derived_from_the_playlist() {
    let movie = item("a", "movie", "video/mp4", Some("https://x/media_files_playlist/abc"));
    assert_eq!(movie.download_url(), Ok("https://x/media_files/abc/download".to_string()));
}

#[test]
fn movie_address_without_playlist_segment_only_gains_the_suffix() {
    let movie = item("a", "movie", "video/mp4", Some("https://example.mp4"));
    assert_eq!(movie.download_url(), Ok("https://example.mp4/download".to_string()));
}

#[test]
fn every_playlist_segment_is_replaced() {
    let movie = item(
        "a",
        "movie",
        "video/mp4",
        Some("media_files_playlist/media_files_playlistmedia_files_playlis"),
    );
    assert_eq!(
        movie.download_url(),
        Ok("media_files/media_filesmedia_files_playlis/download".to_string())
    );
}

#[test]
fn photo_address_is_used_as_it_is() {
    let photo = item("a", "photo", "image/jpeg", Some("https://x/media_files_playlist/abc"));
    assert_eq!(photo.download_url(), Ok("https://example.jpg".to_string()));
}

#[test]
fn movie_without_video_address_is_an_error() {
    let movie = item("a", "movie", "video/mp4", None);
    assert_eq!(movie.download_url(), Err(ClassificationError::MissingVideoUrl));
}

#[test]
fn unknown_media_type_is_an_error() {
    let other = item("a", "audio", "video/mp4", Some("https://example.mp4"));
    assert_eq!(other.download_url(), Err(ClassificationError::UnknownMediaType));
    let upper = item("a", "Photo", "image/jpeg", None);
    assert_eq!(upper.download_url(), Err(ClassificationError::UnknownMediaType));
}

#[test]
fn content_type_gives_the_extension() {
    let png = item("abc", "photo", "image/png", None);
    assert_eq!(png.suggested_file_name("out"), Ok("out/abc.png".to_string()));
    let jpg = item("abc", "photo", "image/jpeg", None);
    assert_eq!(jpg.suggested_file_name("out"), Ok("out/abc.jpg".to_string()));
    let mp4 = item("abc", "movie", "video/mp4", None);
    assert_eq!(mp4.suggested_file_name("out"), Ok("out/abc.mp4".to_string()));
}

#[test]
fn unknown_content_type_is_an_error() {
    let gif = item("abc", "photo", "image/gif", None);
    assert_eq!(gif.suggested_file_name("out"), Err(ClassificationError::UnknownContentType));
    let empty = item("abc", "photo", "", None);
    assert_eq!(empty.suggested_file_name("out"), Err(ClassificationError::UnknownContentType));
    assert!(target_of(&gif, "out").is_err());
}

#[test]
fn file_name_stem_is_lower_case() {
    let photo = item("307C0D3E-1D97-11ED-861D-0242AC120002", "photo", "image/jpeg", None);
    assert_eq!(
        photo.suggested_file_name("/data/Album"),
        Ok("/data/Album/307c0d3e-1d97-11ed-861d-0242ac120002.jpg".to_string())
    );
    let accented = item("ÀÉ-Ω", "photo", "image/png", None);
    assert_eq!(accented.suggested_file_name("d"), Ok("d/àé-ω.png".to_string()));
}

#[test]
fn only_mp4_is_a_video() {
    assert!(item("a", "movie", "video/mp4", None).is_video());
    assert!(!item("a", "photo", "image/jpeg", None).is_video());
    assert!(!item("a", "movie", "video/quicktime", None).is_video());
}

#[test]
fn records_carry_their_fields() {
    let user = User { id: "u1".to_string(), nickname: "Gran".to_string() };
    let comment = Comment {
        id: 3,
        media_file_id: 1,
        user: user.clone(),
        body: "lovely".to_string(),
        created_at: 1651363200,
        updated_at: 1651363260,
        is_deleted: false,
    };
    let mut photo = item("a", "photo", "image/jpeg", None);
    photo.has_comment = true;
    photo.comments.push(comment);
    let page = Root { has_next: false, has_prev: true, current_page: 2, media_files: vec![photo] };
    assert_eq!(page.current_page, 2);
    assert_eq!(page.media_files[0].comments[0].user.nickname, "Gran");
    assert_eq!(page.media_files[0].comments[0].updated_at - page.media_files[0].took_at, 60);
    assert!(page.media_files[0].media_device_model.is_none());
    assert!(page.media_files[0].device_file_path.is_none());
}

#[test]
fn extensions_follow_the_table() {
    assert_eq!(extension("image/jpeg"), Ok("jpg".to_string()));
    assert_eq!(extension("image/png"), Ok("png".to_string()));
    assert_eq!(extension("video/mp4"), Ok("mp4".to_string()));
    assert_eq!(extension("image/jpg"), Err(ClassificationError::UnknownContentType));
    assert_eq!(extension("IMAGE/PNG"), Err(ClassificationError::UnknownContentType));
    assert_eq!(extension("video/mp4 "), Err(ClassificationError::UnknownContentType));
}

#[test]
fn file_path_puts_the_parts_together() {
    assert_eq!(file_path("out", "abc", "jpg"), "out/abc.jpg");
    assert_eq!(file_path("out", "ABC", "jpg"), "out/ABC.jpg");
    assert_eq!(file_path("", "", ""), "/.");
}

#[test]
fn file_is_stamped_with_the_instant_the_item_was_taken() {
    // 2022-05-01T00:00:00+00:00
    let photo = item("a", "photo", "image/jpeg", None);
    assert_eq!(photo.modification_time(), (1651363200, 0));
    let mut early = item("b", "photo", "image/jpeg", None);
    early.took_at = -86400;
    assert_eq!(early.modification_time(), (-86400, 0));
}
