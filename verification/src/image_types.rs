use vstd::prelude::*;

verus! {

/// Scheduling tier of an image request.
#[derive(Debug, Clone, Copy, PartialEq, Eq, Structural)]
pub enum Priority {
    /// Currently visible on screen.
    Visible,
    /// About to become visible (overscan).
    Preload,
    /// Prefetch for the future.
    Background,
}

/// Numeric weight of a priority tier; a higher weight is served first.
pub open spec fn priority_weight(p: Priority) -> u8 {
    match p {
        Priority::Visible => 3,
        Priority::Preload => 2,
        Priority::Background => 1,
    }
}

impl Priority {
    pub fn weight(&self) -> (w: u8)
        ensures
            w == priority_weight(*self),
    {
        match self {
            Priority::Visible => 3,
            Priority::Preload => 2,
            Priority::Background => 1,
        }
    }
}

/// The tier whose weight is `w` (weights above 3 read as visible, 0 as background).
pub open spec fn priority_of_weight(w: u8) -> Priority {
    if w >= 3 {
        Priority::Visible
    } else if w == 2 {
        Priority::Preload
    } else {
        Priority::Background
    }
}

pub fn priority_from_weight(w: u8) -> (p: Priority)
    ensures
        p == priority_of_weight(w),
{
    if w >= 3 {
        Priority::Visible
    } else if w == 2 {
        Priority::Preload
    } else {
        Priority::Background
    }
}

/// Which kind of media a poster belongs to.
#[derive(Debug, Clone, Copy, PartialEq, Eq, Structural)]
pub enum PosterKind {
    Movie,
    Series,
    Season,
}

/// Poster widths served by the image server.
#[derive(Debug, Clone, Copy, PartialEq, Eq, Structural)]
pub enum PosterSize {
    W185,
    W300,
    W500,
    Original,
}

/// Episode still sizes served by the image server.
#[derive(Debug, Clone, Copy, PartialEq, Eq, Structural)]
pub enum EpisodeStillSize {
    Standard,
    Original,
}

/// Requested rendition of an image.
#[derive(Debug, Clone, Copy, PartialEq, Eq, Structural)]
pub enum ImageSize {
    Poster(PosterSize),
    EpisodeStill(EpisodeStillSize),
}

/// What the image depicts.
#[derive(Debug, Clone, Copy, PartialEq, Eq, Structural)]
pub enum ImageType {
    Movie,
    Series,
    Season,
    Episode,
}

/// Identity of an image request: the media id, the image type and the size.
/// Two requests with the same key name the same image.
pub type RequestKey = (u128, u8, u8);

pub open spec fn size_code(s: ImageSize) -> u8 {
    match s {
        ImageSize::Poster(PosterSize::W185) => 0,
        ImageSize::Poster(PosterSize::W300) => 1,
        ImageSize::Poster(PosterSize::W500) => 2,
        ImageSize::Poster(PosterSize::Original) => 3,
        ImageSize::EpisodeStill(EpisodeStillSize::Standard) => 4,
        ImageSize::EpisodeStill(EpisodeStillSize::Original) => 5,
    }
}

pub open spec fn size_of_code(c: u8) -> ImageSize {
    if c == 0 {
        ImageSize::Poster(PosterSize::W185)
    } else if c == 1 {
        ImageSize::Poster(PosterSize::W300)
    } else if c == 2 {
        ImageSize::Poster(PosterSize::W500)
    } else if c == 3 {
        ImageSize::Poster(PosterSize::Original)
    } else if c == 4 {
        ImageSize::EpisodeStill(EpisodeStillSize::Standard)
    } else {
        ImageSize::EpisodeStill(EpisodeStillSize::Original)
    }
}

pub open spec fn type_code(t: ImageType) -> u8 {
    match t {
        ImageType::Movie => 0,
        ImageType::Series => 1,
        ImageType::Season => 2,
        ImageType::Episode => 3,
    }
}

pub open spec fn type_of_code(c: u8) -> ImageType {
    if c == 0 {
        ImageType::Movie
    } else if c == 1 {
        ImageType::Series
    } else if c == 2 {
        ImageType::Season
    } else {
        ImageType::Episode
    }
}

/// A request for one rendition of one image, with its scheduling tier.
#[derive(Debug, Clone, Copy, PartialEq, Eq, Structural)]
pub struct ImageRequest {
    pub media_id: u128,
    pub size: ImageSize,
    pub image_type: ImageType,
    pub priority: Priority,
}

pub open spec fn request_key(r: ImageRequest) -> RequestKey {
    (r.media_id, type_code(r.image_type), size_code(r.size))
}

/// The request named by `key`, scheduled at `priority`.
pub open spec fn request_of_key(key: RequestKey, priority: Priority) -> ImageRequest {
    ImageRequest {
        media_id: key.0,
        image_type: type_of_code(key.1),
        size: size_of_code(key.2),
        priority,
    }
}

/// Whether `key` is the key of some request.
pub open spec fn valid_key(key: RequestKey) -> bool {
    key.1 <= 3 && key.2 <= 5
}

pub proof fn lemma_request_key_roundtrip(r: ImageRequest)
    ensures
        valid_key(request_key(r)),
        request_of_key(request_key(r), r.priority) == r,
{
}

pub proof fn lemma_key_request_roundtrip(key: RequestKey, p: Priority)
    requires
        valid_key(key),
    ensures
        request_key(request_of_key(key, p)) == key,
        request_of_key(key, p).priority == p,
{
}

/// The image type a poster of `kind` depicts.
pub open spec fn poster_image_type(kind: PosterKind) -> ImageType {
    match kind {
        PosterKind::Movie => ImageType::Movie,
        PosterKind::Series => ImageType::Series,
        PosterKind::Season => ImageType::Season,
    }
}

/// The image type a rendition of size `size` depicts when nothing else is known.
pub open spec fn default_image_type(size: ImageSize) -> ImageType {
    match size {
        ImageSize::Poster(_) => ImageType::Movie,
        ImageSize::EpisodeStill(_) => ImageType::Episode,
    }
}

impl ImageRequest {
    pub fn new(media_id: u128, size: ImageSize) -> (r: ImageRequest)
        ensures
            r == (ImageRequest {
                media_id,
                size,
                image_type: default_image_type(size),
                priority: Priority::Visible,
            }),
    {
        let image_type = match size {
            ImageSize::Poster(_) => ImageType::Movie,
            ImageSize::EpisodeStill(_) => ImageType::Episode,
        };
        ImageRequest { media_id, size, image_type, priority: Priority::Visible }
    }

    pub fn poster(media_id: u128, kind: PosterKind, size: PosterSize) -> (r: ImageRequest)
        ensures
            r == (ImageRequest {
                media_id,
                size: ImageSize::Poster(size),
                image_type: poster_image_type(kind),
                priority: Priority::Visible,
            }),
    {
        let image_type = match kind {
            PosterKind::Movie => ImageType::Movie,
            PosterKind::Series => ImageType::Series,
            PosterKind::Season => ImageType::Season,
        };
        ImageRequest { media_id, size: ImageSize::Poster(size), image_type, priority: Priority::Visible }
    }

    pub fn episode_still(media_id: u128, size: EpisodeStillSize) -> (r: ImageRequest)
        ensures
            r == (ImageRequest {
                media_id,
                size: ImageSize::EpisodeStill(size),
                image_type: ImageType::Episode,
                priority: Priority::Visible,
            }),
    {
        ImageRequest {
            media_id,
            size: ImageSize::EpisodeStill(size),
            image_type: ImageType::Episode,
            priority: Priority::Visible,
        }
    }

    pub fn with_priority(self, priority: Priority) -> (r: ImageRequest)
        ensures
            r == (ImageRequest { priority, ..self }),
    {
        ImageRequest { priority, ..self }
    }

    pub fn key(&self) -> (k: RequestKey)
        ensures
            k == request_key(*self),
            valid_key(k),
    {
        let t: u8 = match self.image_type {
            ImageType::Movie => 0,
            ImageType::Series => 1,
            ImageType::Season => 2,
            ImageType::Episode => 3,
        };
        let s: u8 = match self.size {
            ImageSize::Poster(PosterSize::W185) => 0,
            ImageSize::Poster(PosterSize::W300) => 1,
            ImageSize::Poster(PosterSize::W500) => 2,
            ImageSize::Poster(PosterSize::Original) => 3,
            ImageSize::EpisodeStill(EpisodeStillSize::Standard) => 4,
            ImageSize::EpisodeStill(EpisodeStillSize::Original) => 5,
        };
        (self.media_id, t, s)
    }

    /// Whether two requests name the same image (media id, type and size).
    pub fn same_image(&self, other: &ImageRequest) -> (b: bool)
        ensures
            b == (request_key(*self) == request_key(*other)),
    {
        let a = self.key();
        let b = other.key();
        a.0 == b.0 && a.1 == b.1 && a.2 == b.2
    }
}

/// Rebuild the request named by `key` at the priority of weight `weight`.
pub fn request_from_key(key: RequestKey, weight: u8) -> (r: ImageRequest)
    requires
        valid_key(key),
    ensures
        r == request_of_key(key, priority_of_weight(weight)),
        request_key(r) == key,
{
    let image_type = if key.1 == 0 {
        ImageType::Movie
    } else if key.1 == 1 {
        ImageType::Series
    } else if key.1 == 2 {
        ImageType::Season
    } else {
        ImageType::Episode
    };
    let size = if key.2 == 0 {
        ImageSize::Poster(PosterSize::W185)
    } else if key.2 == 1 {
        ImageSize::Poster(PosterSize::W300)
    } else if key.2 == 2 {
        ImageSize::Poster(PosterSize::W500)
    } else if key.2 == 3 {
        ImageSize::Poster(PosterSize::Original)
    } else if key.2 == 4 {
        ImageSize::EpisodeStill(EpisodeStillSize::Standard)
    } else {
        ImageSize::EpisodeStill(EpisodeStillSize::Original)
    };
    ImageRequest { media_id: key.0, size, image_type, priority: priority_from_weight(weight) }
}

} // verus!
