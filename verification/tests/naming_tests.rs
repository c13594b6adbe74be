use apdec::naming::get_output_filename;

#[test]
fn aud_maps_to_mp3() {
    assert_eq!(get_output_filename("track.aud"), Some("track.mp3".to_string()));
    assert_eq!(get_output_filename("TRACK.AUD"), Some("TRACK.mp3".to_string()));
    assert_eq!(get_output_filename("mix.AuD"), Some("mix.mp3".to_string()));
}

#[test]
fn pnz_maps_to_png() {
    assert_eq!(get_output_filename("icon.pnz"), Some("icon.png".to_string()));
    assert_eq!(get_output_filename("ICON.PNZ"), Some("ICON.png".to_string()));
    assert_eq!(get_output_filename("art.PnZ"), Some("art.png".to_string()));
}

#[test]
fn unrecognized_extension_yields_none() {
    assert_eq!(get_output_filename("notes.txt"), None);
    assert_eq!(get_output_filename("payload.audio"), None);
    assert_eq!(get_output_filename("payload.au"), None);
    assert_eq!(get_output_filename("trailing."), None);
}

#[test]
fn name_without_dot_yields_none() {
    assert_eq!(get_output_filename("noextension"), None);
    assert_eq!(get_output_filename(""), None);
}

#[test]
fn last_dot_decides_the_extension() {
    assert_eq!(get_output_filename("a.b.aud"), Some("a.b.mp3".to_string()));
    assert_eq!(get_output_filename("dir.aud/file.pnz"), Some("dir.aud/file.png".to_string()));
    assert_eq!(get_output_filename("x.aud.txt"), None);
}

#[test]
fn bare_extension_keeps_empty_stem() {
    assert_eq!(get_output_filename(".aud"), Some(".mp3".to_string()));
    assert_eq!(get_output_filename(".pnz"), Some(".png".to_string()));
}
