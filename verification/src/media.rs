use vstd::prelude::*;

verus! {

/// Broad classification of an imported file.
#[derive(Clone, Copy, Debug, PartialEq, Eq, Structural)]
pub enum MediaType {
    Video,
    Audio,
    Image,
}

/// Frame rate as the exact rational the probe tool reports ("num/den").
/// The denominator of a well-formed rate is never zero.
#[derive(Clone, Copy, Debug, PartialEq, Eq, Structural)]
pub struct FrameRate {
    pub num: u32,
    pub den: u32,
}

/// Lifecycle state of one imported media file.
///
/// `Importing` and `GeneratingProxy` are the in-flight states;
/// `Ready` and `Error` are terminal.
#[derive(Debug)]
pub enum MediaStatus {
    Importing,
    GeneratingProxy,
    Ready,
    Error(String),
}

impl MediaStatus {
    /// Terminal states: no transition leaves them except removal of the
    /// whole record.
    pub open spec fn spec_is_terminal(self) -> bool {
        self is Ready || self is Error
    }

    pub fn is_terminal(&self) -> (r: bool)
        ensures
            r == self.spec_is_terminal(),
    {
        match self {
            MediaStatus::Ready => true,
            MediaStatus::Error(_) => true,
            _ => false,
        }
    }
}

impl Clone for MediaStatus {
    fn clone(&self) -> (r: Self)
        ensures
            r == *self,
    {
        match self {
            MediaStatus::Importing => MediaStatus::Importing,
            MediaStatus::GeneratingProxy => MediaStatus::GeneratingProxy,
            MediaStatus::Ready => MediaStatus::Ready,
            MediaStatus::Error(reason) => MediaStatus::Error(reason.clone()),
        }
    }
}

/// Technical attributes of a media file, as far as a probe reported them.
/// Any field the probe did not report stays unset.
#[derive(Debug)]
pub struct MediaMetadata {
    pub duration_ms: Option<i64>,
    pub width: Option<u32>,
    pub height: Option<u32>,
    pub fps: Option<FrameRate>,
    pub codec: Option<String>,
}

impl MediaMetadata {
    /// The metadata of a record whose probe has not yet reported anything.
    pub open spec fn unset() -> MediaMetadata {
        MediaMetadata {
            duration_ms: None,
            width: None,
            height: None,
            fps: None,
            codec: None,
        }
    }

    pub fn new_unset() -> (r: Self)
        ensures
            r == MediaMetadata::unset(),
    {
        MediaMetadata { duration_ms: None, width: None, height: None, fps: None, codec: None }
    }
}

impl Clone for MediaMetadata {
    fn clone(&self) -> (r: Self)
        ensures
            r == *self,
    {
        MediaMetadata {
            duration_ms: self.duration_ms,
            width: self.width,
            height: self.height,
            fps: self.fps,
            codec: match &self.codec {
                Some(c) => Some(c.clone()),
                None => None,
            },
        }
    }
}

/// One imported media file and its lifecycle state.
#[derive(Debug)]
pub struct MediaFile {
    pub id: String,
    pub original_path: String,
    pub proxy_path: Option<String>,
    pub media_type: MediaType,
    pub metadata: MediaMetadata,
    pub status: MediaStatus,
}

impl Clone for MediaFile {
    fn clone(&self) -> (r: Self)
        ensures
            r == *self,
    {
        MediaFile {
            id: self.id.clone(),
            original_path: self.original_path.clone(),
            proxy_path: match &self.proxy_path {
                Some(p) => Some(p.clone()),
                None => None,
            },
            media_type: self.media_type,
            metadata: self.metadata.clone(),
            status: self.status.clone(),
        }
    }
}

/// Relies on uuid::Uuid::new_v4 and the uuid crate's `Display` impl,
/// which prints the hyphenated textual form: exactly 36 characters.
/// The value drawn is random, so nothing more is promised of it.
#[verifier::external_body]
fn fresh_uuid_string() -> (r: String)
    ensures
        r@.len() == 36,
{
    uuid::Uuid::new_v4().to_string()
}

impl MediaFile {
    /// Well-formedness: a record carries a proxy path exactly when it is
    /// `Ready`, and a failure always carries a non-empty reason.
    pub open spec fn wf(self) -> bool {
        &&& self.status is Ready <==> self.proxy_path is Some
        &&& match self.status {
            MediaStatus::Error(reason) => reason@.len() > 0,
            _ => true,
        }
    }

    /// A freshly created record: new identifier, `Importing`, nothing probed,
    /// no proxy yet.
    pub fn new(path: String) -> (r: Self)
        ensures
            r.id@.len() == 36,
            r.original_path == path,
            r.proxy_path is None,
            r.media_type is Video,
            r.metadata == MediaMetadata::unset(),
            r.status is Importing,
            r.wf(),
    {
        MediaFile {
            id: fresh_uuid_string(),
            original_path: path,
            proxy_path: None,
            media_type: MediaType::Video,
            metadata: MediaMetadata::new_unset(),
            status: MediaStatus::Importing,
        }
    }

    /// Record what a successful probe reported. Only the metadata changes.
    pub fn load_metadata(&mut self, metadata: MediaMetadata)
        requires
            old(self).status is Importing,
        ensures
            *final(self) == (MediaFile { metadata: metadata, ..*old(self) }),
    {
        self.metadata = metadata;
    }

    /// Proxy generation is being attempted: `Importing` -> `GeneratingProxy`.
    pub fn mark_generating_proxy(&mut self)
        requires
            old(self).status is Importing,
        ensures
            *final(self) == (MediaFile { status: MediaStatus::GeneratingProxy, ..*old(self) }),
    {
        self.status = MediaStatus::GeneratingProxy;
    }

    /// Proxy generation succeeded: the proxy path is set and the record
    /// reaches its terminal success state.
    pub fn mark_ready(&mut self, proxy_path: String)
        requires
            old(self).wf(),
            old(self).status is GeneratingProxy,
        ensures
            *final(self) == (MediaFile {
                status: MediaStatus::Ready,
                proxy_path: Some(proxy_path),
                ..*old(self)
            }),
            final(self).wf(),
    {
        self.proxy_path = Some(proxy_path);
        self.status = MediaStatus::Ready;
    }

    /// A pipeline stage failed: terminal `Error` with a non-empty reason,
    /// reachable from any non-terminal state; the proxy path stays unset.
    pub fn mark_error(&mut self, reason: String)
        requires
            old(self).wf(),
            !(old(self).status is Ready),
            !(old(self).status is Error),
            reason@.len() > 0,
        ensures
            *final(self) == (MediaFile { status: MediaStatus::Error(reason), ..*old(self) }),
            final(self).proxy_path is None,
            final(self).wf(),
    {
        self.status = MediaStatus::Error(reason);
    }
}

/// A well-formed record is never seen in an inconsistent shape: `Ready`
/// always carries a proxy path, any other state never does, and a failure
/// always carries a non-empty reason.
pub proof fn lemma_status_proxy_consistency(m: MediaFile)
    requires
        m.wf(),
    ensures
        m.status is Ready <==> m.proxy_path is Some,
        m.status is Error ==> m.proxy_path is None,
        m.status matches MediaStatus::Error(reason) ==> reason@.len() > 0,
{
}

} // verus!
