//! Notifications for the XSOverlay notifier: a builder, and the flat
//! record that the notifier reads.
//!
//! Numbers with a fraction are held as the bits of their IEEE-754 32-bit
//! form.

use vstd::prelude::*;

verus! {

/// The bits of 0.5, the default timeout in seconds.
pub const DEFAULT_TIMEOUT: u32 = 0x3f00_0000;

/// The bits of 175.0, the default height.
pub const DEFAULT_HEIGHT: u32 = 0x432f_0000;

/// The bits of 1.0, the default opacity.
pub const DEFAULT_OPACITY: u32 = 0x3f80_0000;

/// The bits of 0.7, the default volume.
pub const DEFAULT_VOLUME: u32 = 0x3f33_3333;

/// What kind of notification is shown.
#[derive(Debug, Clone)]
pub enum NotificationDescription {
    /// A popup.
    Popup,
    /// What a media player shows, with the number of its icon.
    MediaPlayer { icon_index: usize },
}

/// The sound of a notification.
#[derive(Debug, Clone)]
pub enum NotificationAudio {
    /// The default sound.
    Default,
    /// The sound of an error.
    Error,
    /// The sound of a warning.
    Warning,
    /// The sound in the file of this name.
    File(String),
}

/// The icon of a notification.
#[derive(Debug, Clone)]
pub enum NotificationIcon {
    /// The default icon.
    Default,
    /// The icon of an error.
    Error,
    /// The icon of a warning.
    Warning,
    /// The icon in the file of this name.
    File(String),
    /// An image, sent along in Base64.
    Base64Binary(Vec<u8>),
}

/// The record that the notifier reads.
#[derive(Debug, Clone, PartialEq, Eq)]
pub struct RawNotification {
    pub message_type: i32,
    pub index: i32,
    pub timeout: u32,
    pub height: u32,
    pub opacity: u32,
    pub volume: u32,
    pub audio_path: String,
    pub title: String,
    pub content: String,
    pub use_base64_icon: bool,
    pub icon: String,
    pub source_app: String,
}

/// Collects the parts of a notification, and is used up when the record is
/// built.
#[derive(Debug, Clone)]
pub struct NotificationBuilder {
    pub description: NotificationDescription,
    pub app_name: String,
    pub title: String,
    pub content: Option<String>,
    pub timeout: Option<u32>,
    pub opacity: Option<u32>,
    pub height: Option<u32>,
    pub volume: Option<u32>,
    pub icon: Option<NotificationIcon>,
    pub audio: Option<NotificationAudio>,
}

/// The Base64 text of `bytes`, in the standard alphabet and padded with
/// `=`, as `base64::encode` writes it.
pub uninterp spec fn base64_text(bytes: Seq<u8>) -> Seq<char>;

/// `base64::encode` gives the standard, padded Base64 text of the bytes.
/// It gives up where the length of that text does not fit a `usize`.
#[verifier::external_body]
fn base64_encode(bytes: &Vec<u8>) -> (text: String)
    requires
        bytes@.len() / 3 * 4 + 4 <= usize::MAX,
    ensures
        text@ == base64_text(bytes@),
{
    base64::encode(bytes)
}

/// The number that tells the notifier the kind of a notification.
pub open spec fn message_type_of(description: NotificationDescription) -> i32 {
    match description {
        NotificationDescription::Popup => 1,
        NotificationDescription::MediaPlayer { .. } => 2,
    }
}

/// The index that goes with the kind of a notification: that of the icon
/// for a media player, cut to 32 bits, and zero for a popup.
pub open spec fn index_of(description: NotificationDescription) -> i32 {
    match description {
        NotificationDescription::Popup => 0,
        NotificationDescription::MediaPlayer { icon_index } => icon_index as i32,
    }
}

/// The path that names the sound: a word for the sounds that are built in,
/// the name of the file, or nothing where no sound was chosen.
pub open spec fn audio_path_of(audio: Option<NotificationAudio>) -> Seq<char> {
    match audio {
        Some(NotificationAudio::Default) => "default"@,
        Some(NotificationAudio::Error) => "error"@,
        Some(NotificationAudio::Warning) => "warning"@,
        Some(NotificationAudio::File(filename)) => filename@,
        None => ""@,
    }
}

/// The text that names the icon: `default` for each icon that is built in,
/// the name of the file, the Base64 text of an image, or nothing where no
/// icon was chosen.
pub open spec fn icon_of(icon: Option<NotificationIcon>) -> Seq<char> {
    match icon {
        Some(NotificationIcon::Default) => "default"@,
        Some(NotificationIcon::Error) => "default"@,
        Some(NotificationIcon::Warning) => "default"@,
        Some(NotificationIcon::File(filename)) => filename@,
        Some(NotificationIcon::Base64Binary(buffer)) => base64_text(buffer@),
        None => ""@,
    }
}

/// Whether the Base64 text of the icon can be written on this machine.
pub open spec fn icon_fits(icon: Option<NotificationIcon>) -> bool {
    icon matches Some(NotificationIcon::Base64Binary(buffer)) ==> buffer@.len() / 3 * 4 + 4
        <= usize::MAX
}

impl NotificationBuilder {
    /// Starts a notification of the application `app_name` with `title`.
    pub fn new(app_name: &str, title: &str, description: NotificationDescription) -> (builder:
        NotificationBuilder)
        ensures
            builder.description == description,
            builder.app_name@ == app_name@,
            builder.title@ == title@,
            builder.content is None,
            builder.timeout is None,
            builder.opacity is None,
            builder.height is None,
            builder.volume is None,
            builder.icon is None,
            builder.audio is None,
    {
        NotificationBuilder {
            description,
            app_name: app_name.to_owned(),
            title: title.to_owned(),
            content: None,
            timeout: None,
            opacity: None,
            height: None,
            volume: None,
            icon: None,
            audio: None,
        }
    }

    /// Whether the icon of this notification can be written.
    pub fn can_build(&self) -> (yes: bool)
        ensures
            yes == icon_fits(self.icon),
    {
        match &self.icon {
            Some(NotificationIcon::Base64Binary(buffer)) => buffer.len() / 3 <= (usize::MAX - 4)
                / 4,
            _ => true,
        }
    }

    /// The record made of what was collected, with the defaults for what
    /// was not set.
    pub fn build(self) -> (raw: RawNotification)
        requires
            icon_fits(self.icon),
        ensures
            raw.message_type == message_type_of(self.description),
            raw.index == index_of(self.description),
            raw.timeout == (match self.timeout {
                Some(bits) => bits,
                None => DEFAULT_TIMEOUT,
            }),
            raw.height == (match self.height {
                Some(bits) => bits,
                None => DEFAULT_HEIGHT,
            }),
            raw.opacity == (match self.opacity {
                Some(bits) => bits,
                None => DEFAULT_OPACITY,
            }),
            raw.volume == (match self.volume {
                Some(bits) => bits,
                None => DEFAULT_VOLUME,
            }),
            raw.audio_path@ == audio_path_of(self.audio),
            raw.title@ == self.title@,
            raw.content@ == (match self.content {
                Some(content) => content@,
                None => Seq::empty(),
            }),
            raw.use_base64_icon == (self.icon matches Some(NotificationIcon::Base64Binary(_))),
            raw.icon@ == icon_of(self.icon),
            raw.source_app@ == self.app_name@,
    {
        proof {
            reveal_strlit("");
        }
        let message_type: i32 = match &self.description {
            NotificationDescription::Popup => 1,
            NotificationDescription::MediaPlayer { .. } => 2,
        };
        let index: i32 = match &self.description {
            NotificationDescription::Popup => 0,
            NotificationDescription::MediaPlayer { icon_index } => #[verifier::truncate]
            (*icon_index as i32),
        };
        let use_base64_icon = match &self.icon {
            Some(NotificationIcon::Base64Binary(_)) => true,
            _ => false,
        };
        let audio_path = match self.audio {
            Some(NotificationAudio::Default) => "default".to_owned(),
            Some(NotificationAudio::Error) => "error".to_owned(),
            Some(NotificationAudio::Warning) => "warning".to_owned(),
            Some(NotificationAudio::File(filename)) => filename,
            None => "".to_owned(),
        };
        let icon = match self.icon {
            Some(NotificationIcon::Default) => "default".to_owned(),
            Some(NotificationIcon::Error) => "default".to_owned(),
            Some(NotificationIcon::Warning) => "default".to_owned(),
            Some(NotificationIcon::File(filename)) => filename,
            Some(NotificationIcon::Base64Binary(buffer)) => base64_encode(&buffer),
            None => "".to_owned(),
        };
        RawNotification {
            message_type,
            index,
            timeout: match self.timeout {
                Some(bits) => bits,
                None => DEFAULT_TIMEOUT,
            },
            height: match self.height {
                Some(bits) => bits,
                None => DEFAULT_HEIGHT,
            },
            opacity: match self.opacity {
                Some(bits) => bits,
                None => DEFAULT_OPACITY,
            },
            volume: match self.volume {
                Some(bits) => bits,
                None => DEFAULT_VOLUME,
            },
            audio_path,
            title: self.title,
            content: match self.content {
                Some(content) => content,
                None => String::new(),
            },
            use_base64_icon,
            icon,
            source_app: self.app_name,
        }
    }

    /// Sets the content.
    pub fn content(self, content: &str) -> (builder: NotificationBuilder)
        ensures
            builder.content is Some,
            builder.content->Some_0@ == content@,
            builder.description == self.description,
            builder.app_name == self.app_name,
            builder.title == self.title,
            builder.timeout == self.timeout,
            builder.opacity == self.opacity,
            builder.height == self.height,
            builder.volume == self.volume,
            builder.icon == self.icon,
            builder.audio == self.audio,
    {
        let mut builder = self;
        builder.content = Some(content.to_owned());
        builder
    }

    /// Sets the timeout, in seconds, as the bits of its number.
    pub fn timeout(self, secs: u32) -> (builder: NotificationBuilder)
        ensures
            builder == (NotificationBuilder { timeout: Some(secs), ..self }),
    {
        let mut builder = self;
        builder.timeout = Some(secs);
        builder
    }

    /// Sets the opacity, as the bits of a number from 0 to 1.
    pub fn opacity(self, opacity: u32) -> (builder: NotificationBuilder)
        ensures
            builder == (NotificationBuilder { opacity: Some(opacity), ..self }),
    {
        let mut builder = self;
        builder.opacity = Some(opacity);
        builder
    }

    /// Sets the height, as the bits of a number that is not negative.
    pub fn height(self, height: u32) -> (builder: NotificationBuilder)
        ensures
            builder == (NotificationBuilder { height: Some(height), ..self }),
    {
        let mut builder = self;
        builder.height = Some(height);
        builder
    }

    /// Sets the volume, as the bits of its number.
    pub fn volume(self, volume: u32) -> (builder: NotificationBuilder)
        ensures
            builder == (NotificationBuilder { volume: Some(volume), ..self }),
    {
        let mut builder = self;
        builder.volume = Some(volume);
        builder
    }

    /// Sets the icon.
    pub fn icon(self, icon: NotificationIcon) -> (builder: NotificationBuilder)
        ensures
            builder == (NotificationBuilder { icon: Some(icon), ..self }),
    {
        let mut builder = self;
        builder.icon = Some(icon);
        builder
    }

    /// Sets the sound.
    pub fn audio(self, audio: NotificationAudio) -> (builder: NotificationBuilder)
        ensures
            builder == (NotificationBuilder { audio: Some(audio), ..self }),
    {
        let mut builder = self;
        builder.audio = Some(audio);
        builder
    }
}

} // verus!
