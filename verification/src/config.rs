//! The site's settings and the about page's author settings.
use vstd::prelude::*;
use vstd::string::*;
use crate::parse::{parse_usize, spec_parse_usize};
use crate::text::{chars_of, push_u64, decimal};

verus! {

/// The site's settings: its title, description, public URL and the number
/// of posts on a listing page.
pub struct SiteConfig {
    pub title: String,
    pub description: String,
    pub url: String,
    pub posts_per_page: usize,
}

/// The title a site has when none is configured.
pub open spec fn default_title_text() -> Seq<char> {
    "MyBlog"@
}

/// The description a site has when none is configured.
pub open spec fn default_desc_text() -> Seq<char> {
    "A personal blog built with Rust and Axum"@
}

/// The URL a site has when none is configured.
pub open spec fn default_url_text() -> Seq<char> {
    "http://127.0.0.1:3000"@
}

/// The number of posts on a listing page when none is configured.
pub open spec fn default_posts_per_page() -> nat {
    5
}

/// The title a site has when none is configured.
pub fn default_title() -> (r: String)
    ensures
        r@ == default_title_text(),
{
    String::from_str("MyBlog")
}

/// The description a site has when none is configured.
pub fn default_desc() -> (r: String)
    ensures
        r@ == default_desc_text(),
{
    String::from_str("A personal blog built with Rust and Axum")
}

/// The URL a site has when none is configured.
pub fn default_url() -> (r: String)
    ensures
        r@ == default_url_text(),
{
    String::from_str("http://127.0.0.1:3000")
}

/// The number of posts on a listing page when none is configured.
pub fn default_ppp() -> (r: usize)
    ensures
        r == default_posts_per_page(),
{
    5
}

impl Default for SiteConfig {
    fn default() -> (r: Self)
        ensures
            r.title@ == default_title_text(),
            r.description@ == default_desc_text(),
            r.url@ == default_url_text(),
            r.posts_per_page == default_posts_per_page(),
    {
        SiteConfig {
            title: default_title(),
            description: default_desc(),
            url: default_url(),
            posts_per_page: default_ppp(),
        }
    }
}

/// The settings after the overrides that the environment gives: a title,
/// description or URL replaces the configured one; a number of posts per
/// page replaces it only when it reads as a `usize`.
pub open spec fn overridden(
    config: SiteConfig,
    title: Option<Seq<char>>,
    desc: Option<Seq<char>>,
    url: Option<Seq<char>>,
    per_page: Option<Seq<char>>,
    r: SiteConfig,
) -> bool {
    &&& r.title@ == match title {
        Some(t) => t,
        None => config.title@,
    }
    &&& r.description@ == match desc {
        Some(d) => d,
        None => config.description@,
    }
    &&& r.url@ == match url {
        Some(u) => u,
        None => config.url@,
    }
    &&& r.posts_per_page == match per_page {
        Some(p) => match spec_parse_usize(p) {
            Some(n) => n,
            None => config.posts_per_page as nat,
        },
        None => config.posts_per_page as nat,
    }
}

/// The view of an optional string.
pub open spec fn opt_view(s: Option<String>) -> Option<Seq<char>> {
    match s {
        Some(x) => Some(x@),
        None => None,
    }
}

/// Applies the overrides of `SITE_TITLE`, `SITE_DESC`, `SITE_URL` and
/// `POSTS_PER_PAGE`, each given as its value when it is set.
pub fn with_overrides(
    config: SiteConfig,
    title: Option<String>,
    desc: Option<String>,
    url: Option<String>,
    per_page: Option<String>,
) -> (r: SiteConfig)
    ensures
        overridden(config, opt_view(title), opt_view(desc), opt_view(url), opt_view(per_page), r),
{
    let mut c = config;
    if let Some(t) = title {
        c.title = t;
    }
    if let Some(d) = desc {
        c.description = d;
    }
    if let Some(u) = url {
        c.url = u;
    }
    if let Some(p) = per_page {
        if let Some(n) = parse_usize(p.as_str()) {
            c.posts_per_page = n;
        }
    }
    c
}

/// The number of posts on a listing page.
pub fn posts_per_page(config: &SiteConfig) -> (r: usize)
    ensures
        r == config.posts_per_page,
{
    config.posts_per_page
}

/// The site's public URL.
pub fn site_url(config: &SiteConfig) -> (r: &str)
    ensures
        r@ == config.url@,
{
    config.url.as_str()
}

/// The site's title.
pub fn site_title(config: &SiteConfig) -> (r: &str)
    ensures
        r@ == config.title@,
{
    config.title.as_str()
}

/// The site's description.
pub fn site_desc(config: &SiteConfig) -> (r: &str)
    ensures
        r@ == config.description@,
{
    config.description.as_str()
}

// ---------------------------------------------------------------------
// the about page's author
// ---------------------------------------------------------------------

/// The author shown on the about page and the path of their avatar.
pub struct AboutConfig {
    pub author_name: String,
    pub avatar_path: String,
}

/// The author's name when none is saved.
pub open spec fn default_author_text() -> Seq<char> {
    "阿愁"@
}

/// The avatar when none is saved.
pub open spec fn default_avatar_text() -> Seq<char> {
    "/static/images/avatar.jpg"@
}

impl Default for AboutConfig {
    fn default() -> (r: Self)
        ensures
            r.author_name@ == default_author_text(),
            r.avatar_path@ == default_avatar_text(),
    {
        AboutConfig {
            author_name: String::from_str("阿愁"),
            avatar_path: String::from_str("/static/images/avatar.jpg"),
        }
    }
}

impl AboutConfig {
    /// A copy of the settings.
    pub fn duplicate(&self) -> (r: AboutConfig)
        ensures
            r.author_name@ == self.author_name@,
            r.avatar_path@ == self.avatar_path@,
    {
        AboutConfig { author_name: self.author_name.clone(), avatar_path: self.avatar_path.clone() }
    }
}

/// The value that an edit leaves in a setting: a given, non-empty value
/// replaces it.
pub open spec fn edited(old: Seq<char>, new: Option<Seq<char>>) -> Seq<char> {
    match new {
        Some(v) => if v.len() > 0 {
            v
        } else {
            old
        },
        None => old,
    }
}

/// The settings after an edit of the author's name and avatar; an absent
/// or empty value leaves a setting as it was.
pub fn apply_about_update(
    config: AboutConfig,
    author_name: Option<String>,
    avatar_path: Option<String>,
) -> (r: AboutConfig)
    ensures
        r.author_name@ == edited(config.author_name@, opt_view(author_name)),
        r.avatar_path@ == edited(config.avatar_path@, opt_view(avatar_path)),
{
    let mut c = config;
    if let Some(name) = author_name {
        if name.as_str().unicode_len() > 0 {
            c.author_name = name;
        }
    }
    if let Some(path) = avatar_path {
        if path.as_str().unicode_len() > 0 {
            c.avatar_path = path;
        }
    }
    c
}

/// The prefix of avatars served from the site's own files.
pub open spec fn static_prefix() -> Seq<char> {
    "/static/"@
}

/// `s` starts with `p`.
pub open spec fn starts_with(s: Seq<char>, p: Seq<char>) -> bool {
    p.len() <= s.len() && s.take(p.len() as int) == p
}

fn starts_with_static(raw: &str) -> (r: bool)
    ensures
        r == starts_with(raw@, static_prefix()),
{
    let v = chars_of(raw);
    let p = chars_of("/static/");
    if p.len() > v.len() {
        return false;
    }
    let mut i: usize = 0;
    while i < p.len()
        invariant
            p@ == static_prefix(),
            v@ == raw@,
            p@.len() <= v@.len(),
            i <= p@.len(),
            forall|k: int| 0 <= k < i ==> v@[k] == p@[k],
        decreases p@.len() - i,
    {
        if v[i] != p[i] {
            proof {
                assert(v@.take(p@.len() as int)[i as int] != p@[i as int]);
            }
            return false;
        }
        i = i + 1;
    }
    proof {
        assert(v@.take(p@.len() as int) =~= p@);
    }
    true
}

/// The local file of an avatar served from the site's own files: the path
/// relative to the working directory (`.` followed by the path).
pub fn avatar_file_path(raw: &str) -> (r: Option<String>)
    ensures
        match r {
            Some(f) => starts_with(raw@, static_prefix()) && f@ == seq!['.'] + raw@,
            None => !starts_with(raw@, static_prefix()),
        },
{
    if starts_with_static(raw) {
        let mut f = String::from_str(".");
        f.append(raw);
        proof {
            reveal_strlit(".");
        }
        Some(f)
    } else {
        None
    }
}

/// The avatar's URL on the about page: one served from the site's own
/// files carries its modification time (`?v=` and the seconds since the
/// epoch, 0 when unknown) so that browsers fetch it anew after a change;
/// any other is used as it is.
pub fn avatar_url(raw: &str, mtime: u64) -> (r: String)
    ensures
        r@ == if starts_with(raw@, static_prefix()) {
            raw@ + "?v="@ + decimal(mtime as nat)
        } else {
            raw@
        },
{
    let mut r = String::from_str(raw);
    if starts_with_static(raw) {
        r.append("?v=");
        push_u64(&mut r, mtime);
    }
    r
}

// ---------------------------------------------------------------------
// avatar uploads
// ---------------------------------------------------------------------

/// Why an avatar upload was refused.
pub enum AvatarError {
    NoFile,
    BadType,
    ReadFailed,
    TooLarge,
    CreateFailed,
    WriteFailed,
}

/// The largest avatar accepted, in bytes (5 MiB).
pub const MAX_AVATAR_BYTES: usize = 5242880;

impl AvatarError {
    /// The message the client is sent.
    pub fn message(&self) -> (r: String)
        ensures
            r@ == match self {
                AvatarError::NoFile => "No file uploaded"@,
                AvatarError::BadType => "Only JPG, PNG, WebP allowed"@,
                AvatarError::ReadFailed => "Failed to read file"@,
                AvatarError::TooLarge => "File too large (max 5MB)"@,
                AvatarError::CreateFailed => "Failed to create file"@,
                AvatarError::WriteFailed => "Failed to save file"@,
            },
    {
        match self {
            AvatarError::NoFile => String::from_str("No file uploaded"),
            AvatarError::BadType => String::from_str("Only JPG, PNG, WebP allowed"),
            AvatarError::ReadFailed => String::from_str("Failed to read file"),
            AvatarError::TooLarge => String::from_str("File too large (max 5MB)"),
            AvatarError::CreateFailed => String::from_str("Failed to create file"),
            AvatarError::WriteFailed => String::from_str("Failed to save file"),
        }
    }

    /// Whether the failure is the server's (status 500) rather than the
    /// request's (status 400).
    pub fn is_server_error(&self) -> (r: bool)
        ensures
            r == (self is CreateFailed || self is WriteFailed),
    {
        match self {
            AvatarError::CreateFailed => true,
            AvatarError::WriteFailed => true,
            _ => false,
        }
    }
}

/// The file extension an avatar of the given content type is saved with:
/// `png` and `webp` for those types, `jpg` for JPEG; other types are
/// refused.
pub open spec fn spec_avatar_extension(content_type: Seq<char>) -> Option<Seq<char>> {
    if content_type == "image/png"@ {
        Some("png"@)
    } else if content_type == "image/webp"@ {
        Some("webp"@)
    } else if content_type == "image/jpeg"@ {
        Some("jpg"@)
    } else {
        None
    }
}

/// The extension an uploaded avatar is saved with, or `BadType` for a
/// content type other than JPEG, PNG and WebP.
pub fn avatar_extension(content_type: &str) -> (r: Result<String, AvatarError>)
    ensures
        match r {
            Ok(e) => spec_avatar_extension(content_type@) == Some(e@),
            Err(err) => spec_avatar_extension(content_type@) is None && err is BadType,
        },
{
    if crate::text::str_eq(content_type, "image/png") {
        Ok(String::from_str("png"))
    } else if crate::text::str_eq(content_type, "image/webp") {
        Ok(String::from_str("webp"))
    } else if crate::text::str_eq(content_type, "image/jpeg") {
        Ok(String::from_str("jpg"))
    } else {
        Err(AvatarError::BadType)
    }
}

/// Accepts an upload of `len` bytes, or refuses it as `TooLarge` when it
/// is over 5 MiB.
pub fn check_avatar_size(len: usize) -> (r: Result<(), AvatarError>)
    ensures
        r is Ok <==> len <= MAX_AVATAR_BYTES,
        r matches Err(e) ==> e is TooLarge,
{
    if len > MAX_AVATAR_BYTES {
        Err(AvatarError::TooLarge)
    } else {
        Ok(())
    }
}

/// Where an avatar with extension `ext` is written, relative to the
/// working directory: `static/images/avatar.` and the extension.
pub fn avatar_save_path(ext: &str) -> (r: String)
    ensures
        r@ == "static/images/avatar."@ + ext@,
{
    let mut r = String::from_str("static/images/avatar.");
    r.append(ext);
    r
}

/// The path under which a saved avatar with extension `ext` is served:
/// `/static/images/avatar.` and the extension.
pub fn avatar_public_path(ext: &str) -> (r: String)
    ensures
        r@ == "/static/images/avatar."@ + ext@,
{
    let mut r = String::from_str("/static/images/avatar.");
    r.append(ext);
    r
}


/// Where an avatar upload stands.
pub enum UploadState {
    /// The upload's file field is to be read.
    AwaitField,
    /// The file's bytes are to be read; it will be saved with this
    /// extension.
    AwaitBytes(String),
    /// The file is to be saved with this extension.
    AwaitSaved(String),
    /// The avatar was saved and is served under this path.
    Done(String),
    /// The upload was refused.
    Failed(AvatarError),
}

/// What the server found out at the last step of an upload.
pub enum UploadEvent {
    /// The request has no file field.
    NoField,
    /// The file field, with its content type (empty when it has none).
    Field(String),
    /// The file's bytes could not be read.
    ReadFailed,
    /// The file has this many bytes.
    Bytes(usize),
    /// The file could not be created.
    CreateFailed,
    /// The file could not be written.
    WriteFailed,
    /// The file was saved.
    Saved,
}

/// The state after `event` in state `state`: the field must have a JPEG,
/// PNG or WebP content type, the file at most 5 MiB, and saving must
/// succeed; each failure ends the upload with its error. An event that
/// does not belong to the state leaves it as it is.
pub open spec fn upload_next(state: UploadState, event: UploadEvent, r: UploadState) -> bool {
    match state {
        UploadState::AwaitField => match event {
            UploadEvent::NoField => r matches UploadState::Failed(e) && e is NoFile,
            UploadEvent::Field(ct) => match spec_avatar_extension(ct@) {
                Some(ext) => r matches UploadState::AwaitBytes(x) && x@ == ext,
                None => r matches UploadState::Failed(e) && e is BadType,
            },
            _ => r == state,
        },
        UploadState::AwaitBytes(ext) => match event {
            UploadEvent::ReadFailed => r matches UploadState::Failed(e) && e is ReadFailed,
            UploadEvent::Bytes(n) => if n <= MAX_AVATAR_BYTES {
                r matches UploadState::AwaitSaved(x) && x@ == ext@
            } else {
                r matches UploadState::Failed(e) && e is TooLarge
            },
            _ => r == state,
        },
        UploadState::AwaitSaved(ext) => match event {
            UploadEvent::CreateFailed => r matches UploadState::Failed(e) && e is CreateFailed,
            UploadEvent::WriteFailed => r matches UploadState::Failed(e) && e is WriteFailed,
            UploadEvent::Saved => r matches UploadState::Done(p) && p@ == "/static/images/avatar."@
                + ext@,
            _ => r == state,
        },
        _ => r == state,
    }
}

/// One step of an avatar upload.
pub fn upload_step(state: UploadState, event: UploadEvent) -> (r: UploadState)
    ensures
        upload_next(state, event, r),
{
    match state {
        UploadState::AwaitField => match event {
            UploadEvent::NoField => UploadState::Failed(AvatarError::NoFile),
            UploadEvent::Field(ct) => match avatar_extension(ct.as_str()) {
                Ok(ext) => UploadState::AwaitBytes(ext),
                Err(e) => UploadState::Failed(e),
            },
            _ => UploadState::AwaitField,
        },
        UploadState::AwaitBytes(ext) => match event {
            UploadEvent::ReadFailed => UploadState::Failed(AvatarError::ReadFailed),
            UploadEvent::Bytes(n) => match check_avatar_size(n) {
                Ok(()) => UploadState::AwaitSaved(ext),
                Err(e) => UploadState::Failed(e),
            },
            _ => UploadState::AwaitBytes(ext),
        },
        UploadState::AwaitSaved(ext) => match event {
            UploadEvent::CreateFailed => UploadState::Failed(AvatarError::CreateFailed),
            UploadEvent::WriteFailed => UploadState::Failed(AvatarError::WriteFailed),
            UploadEvent::Saved => UploadState::Done(avatar_public_path(ext.as_str())),
            _ => UploadState::AwaitSaved(ext),
        },
        other => other,
    }
}

} // verus!
