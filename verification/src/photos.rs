//! Photo-feed catalog data and image-URL construction.

use vstd::prelude::*;
use vstd::string::StringExecFns;

verus! {

/// Response envelope of the photo feed.
#[derive(Debug, Clone, PartialEq)]
pub struct FlickrGetPhotosResponse {
    pub photos: Photos,
    pub stat: String,
}

/// One page of photos.
#[derive(Debug, Clone, PartialEq)]
pub struct Photos {
    pub page: i64,
    pub pages: i64,
    pub perpage: i64,
    pub total: i64,
    pub photo: Vec<Photo>,
}

/// Catalog data for one photo.
#[derive(Debug, Clone, PartialEq)]
pub struct Photo {
    pub id: String,
    pub owner: String,
    pub secret: String,
    pub server: String,
    pub farm: i64,
    pub title: String,
    pub is_public: i64,
    pub is_friend: i64,
    pub is_family: i64,
}

/// The characters of a photo's image URL, at the large size or unsized.
pub open spec fn image_url_chars(p: Photo, large: bool) -> Seq<char> {
    if large {
        "https://live.staticflickr.com/"@ + p.server@ + "/"@ + p.id@ + "_"@ + p.secret@ + "_"@
            + "b"@ + ".jpg"@
    } else {
        "https://live.staticflickr.com/"@ + p.server@ + "/"@ + p.id@ + "_"@ + p.secret@ + ".jpg"@
    }
}

/// A named image size.
#[derive(Debug, Clone, Copy, PartialEq, Eq, Structural)]
pub enum PhotoSize {
    Large,
}

impl PhotoSize {
    /// The size's suffix in image file names.
    pub fn get_suffix(&self) -> (r: &'static str)
        ensures
            r@ == "b"@,
    {
        "b"
    }
}

impl Photo {
    /// The photo's image URL, at the given size where one is named.
    pub fn to_image_url(&self, size: Option<PhotoSize>) -> (r: String)
        ensures
            r@ == image_url_chars(*self, size is Some),
    {
        let mut url = "https://live.staticflickr.com/".to_owned();
        url.append(self.server.as_str());
        url.append("/");
        url.append(self.id.as_str());
        url.append("_");
        url.append(self.secret.as_str());
        match size {
            Option::Some(s) => {
                url.append("_");
                url.append(s.get_suffix());
            },
            Option::None => {},
        }
        url.append(".jpg");
        url
    }
}

/// One entry of the picture feed shown to a reader: the image URL and the
/// photo's identifier.
#[derive(Debug, Clone, PartialEq)]
pub struct Picture {
    pub url: String,
    pub id: String,
}

/// The picture feed: the most recent photos, in feed order.
#[derive(Debug, Clone, PartialEq)]
pub struct Pictures {
    pub recent_pictures: Vec<Picture>,
}

impl Pictures {
    /// Builds the picture feed from a photo-feed response: one entry per
    /// photo, in order, with its image URL at the requested size.
    pub fn from_response(response: FlickrGetPhotosResponse, size: Option<PhotoSize>) -> (r:
        Pictures)
        ensures
            r.recent_pictures@.len() == response.photos.photo@.len(),
            forall|i: int| 0 <= i < r.recent_pictures@.len() ==> (
            #[trigger] r.recent_pictures@[i]).url@ == image_url_chars(
                response.photos.photo@[i],
                size is Some,
            ) && r.recent_pictures@[i].id@ == response.photos.photo@[i].id@,
    {
        let ghost orig = response.photos.photo@;
        let mut photos = response.photos.photo;
        let mut recent_pictures: Vec<Picture> = Vec::new();
        while photos.len() > 0
            invariant
                recent_pictures@.len() + photos@.len() == orig.len(),
                photos@ == orig.skip(recent_pictures@.len() as int),
                forall|i: int| 0 <= i < recent_pictures@.len() ==> (
                #[trigger] recent_pictures@[i]).url@ == image_url_chars(orig[i], size is Some)
                    && recent_pictures@[i].id@ == orig[i].id@,
            decreases photos@.len(),
        {
            let ghost done = recent_pictures@.len() as int;
            let ghost prev = photos@;
            let p = photos.remove(0);
            proof {
                assert(p == orig[done]);
                assert(photos@ =~= orig.skip(done + 1));
            }
            let url = p.to_image_url(size);
            recent_pictures.push(Picture { url, id: p.id });
        }
        Pictures { recent_pictures }
    }
}

} // verus!
