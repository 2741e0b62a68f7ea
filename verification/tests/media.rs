use vadadee_doc::media::{
    audio_only_ext, is_video_container_ext, path_is_audio_only, pcm_has_audible_samples, pcm_peak,
    video_container_ext,
};

#[test]
fn pcm_peak_is_largest_absolute_sample() {
    assert_eq!(pcm_peak(&[]), 0);
    assert_eq!(pcm_peak(&[3, -7, 5]), 7);
    assert_eq!(pcm_peak(&[-1200, 400]), 1200);
    assert_eq!(pcm_peak(&[i16::MAX, -5]), i16::MAX);
    // The most negative sample keeps its value through the i32 -> i16 cast.
    assert_eq!(pcm_peak(&[i16::MIN]), i16::MIN);
    assert_eq!(pcm_peak(&[i16::MIN, 3]), 3);
}

#[test]
fn audible_threshold() {
    assert!(!pcm_has_audible_samples(&[]));
    assert!(!pcm_has_audible_samples(&[499, -499, 0]));
    assert!(pcm_has_audible_samples(&[0, -500]));
    assert!(pcm_has_audible_samples(&[12000]));
    assert!(!pcm_has_audible_samples(&[i16::MIN]));
}

#[test]
fn video_container_extensions() {
    assert!(is_video_container_ext("/a/b/clip.mp4"));
    assert!(is_video_container_ext("clip.MKV"));
    assert!(is_video_container_ext("x.WebM"));
    assert!(is_video_container_ext("movie.tar.avi"));
    assert!(!is_video_container_ext("song.mp3"));
    assert!(!is_video_container_ext("noext"));
    assert!(!is_video_container_ext(".mp4"));
    assert!(!is_video_container_ext(""));
    assert!(video_container_ext(Some("MoV")));
    assert!(!video_container_ext(Some("mp3")));
    assert!(!video_container_ext(None));
}

#[test]
fn audio_only_paths() {
    assert!(path_is_audio_only(""));
    assert!(path_is_audio_only("/music/track.mp3"));
    assert!(path_is_audio_only("a.FLAC"));
    assert!(path_is_audio_only("b.opus"));
    assert!(!path_is_audio_only("c.mp4"));
    assert!(!path_is_audio_only("noext"));
    assert!(audio_only_ext(Some("WAV")));
    assert!(!audio_only_ext(None));
}
