use phorcys::xsoverlay::{
    NotificationAudio, NotificationBuilder, NotificationDescription, NotificationIcon,
    RawNotification, DEFAULT_HEIGHT, DEFAULT_OPACITY, DEFAULT_TIMEOUT, DEFAULT_VOLUME,
};

#[test]
fn the_defaults_are_the_bits_of_their_numbers() {
    assert_eq!(DEFAULT_TIMEOUT, 0.5f32.to_bits());
    assert_eq!(DEFAULT_HEIGHT, 175.0f32.to_bits());
    assert_eq!(DEFAULT_OPACITY, 1.0f32.to_bits());
    assert_eq!(DEFAULT_VOLUME, 0.7f32.to_bits());
}

#[test]
fn a_popup_with_nothing_set_has_the_defaults() {
    let builder =
        NotificationBuilder::new("phorcys-example", "Hello, XSOverlay!", NotificationDescription::Popup);
    assert!(builder.can_build());
    assert_eq!(
        builder.build(),
        RawNotification {
            message_type: 1,
            index: 0,
            timeout: 0.5f32.to_bits(),
            height: 175.0f32.to_bits(),
            opacity: 1.0f32.to_bits(),
            volume: 0.7f32.to_bits(),
            audio_path: "".into(),
            title: "Hello, XSOverlay!".into(),
            content: "".into(),
            use_base64_icon: false,
            icon: "".into(),
            source_app: "phorcys-example".into(),
        }
    );
}

#[test]
fn what_was_set_is_in_the_record() {
    let raw = NotificationBuilder::new(
        "app",
        "title",
        NotificationDescription::MediaPlayer { icon_index: 7 },
    )
    .content("content")
    .timeout(2.0f32.to_bits())
    .opacity(0.25f32.to_bits())
    .height(100.0f32.to_bits())
    .volume(0.0f32.to_bits())
    .icon(NotificationIcon::File("icon.png".into()))
    .audio(NotificationAudio::File("sound.ogg".into()))
    .build();
    assert_eq!(
        raw,
        RawNotification {
            message_type: 2,
            index: 7,
            timeout: 2.0f32.to_bits(),
            height: 100.0f32.to_bits(),
            opacity: 0.25f32.to_bits(),
            volume: 0,
            audio_path: "sound.ogg".into(),
            title: "title".into(),
            content: "content".into(),
            use_base64_icon: false,
            icon: "icon.png".into(),
            source_app: "app".into(),
        }
    );
}

fn built(icon: Option<NotificationIcon>, audio: Option<NotificationAudio>) -> RawNotification {
    let mut builder = NotificationBuilder::new("a", "t", NotificationDescription::Popup);
    if let Some(icon) = icon {
        builder = builder.icon(icon);
    }
    if let Some(audio) = audio {
        builder = builder.audio(audio);
    }
    builder.build()
}

#[test]
fn the_sounds_that_are_built_in_go_by_their_words() {
    assert_eq!(built(None, Some(NotificationAudio::Default)).audio_path, "default");
    assert_eq!(built(None, Some(NotificationAudio::Error)).audio_path, "error");
    assert_eq!(built(None, Some(NotificationAudio::Warning)).audio_path, "warning");
    assert_eq!(built(None, None).audio_path, "");
}

#[test]
fn the_icons_that_are_built_in_are_all_the_default() {
    for icon in [NotificationIcon::Default, NotificationIcon::Error, NotificationIcon::Warning] {
        let raw = built(Some(icon), None);
        assert_eq!(raw.icon, "default");
        assert!(!raw.use_base64_icon);
    }
}

#[test]
fn an_image_is_sent_in_base64() {
    let raw = built(Some(NotificationIcon::Base64Binary(b"hello".to_vec())), None);
    assert_eq!(raw.icon, "aGVsbG8=");
    assert!(raw.use_base64_icon);
    let raw = built(Some(NotificationIcon::Base64Binary(vec![0xFB, 0xFF, 0xFE])), None);
    assert_eq!(raw.icon, "+//+");
    let raw = built(Some(NotificationIcon::Base64Binary(vec![])), None);
    assert_eq!(raw.icon, "");
    assert!(raw.use_base64_icon);
}

#[test]
fn the_index_of_a_media_player_is_cut_to_32_bits() {
    let raw = NotificationBuilder::new(
        "a",
        "t",
        NotificationDescription::MediaPlayer { icon_index: 0x1_0000_0003 },
    )
    .build();
    assert_eq!(raw.message_type, 2);
    assert_eq!(raw.index, 3);
}
