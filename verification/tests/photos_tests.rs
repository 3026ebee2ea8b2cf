use charge_sim::photos::FlickrGetPhotosResponse;
use charge_sim::photos::Photo;
use charge_sim::photos::Photos;
use charge_sim::photos::Pictures;
use charge_sim::photos::PhotoSize;

fn sample_photo() -> Photo {
    Photo {
        id: "53".to_string(),
        owner: "owner".to_string(),
        secret: "abc".to_string(),
        server: "65535".to_string(),
        farm: 6,
        title: "a picture".to_string(),
        is_public: 1,
        is_friend: 0,
        is_family: 0,
    }
}

#[test]
fn image_url_without_size() {
    let url = sample_photo().to_image_url(None);
    assert_eq!(url, "https://live.staticflickr.com/65535/53_abc.jpg");
}

#[test]
fn image_url_with_large_size_suffix() {
    let url = sample_photo().to_image_url(Some(PhotoSize::Large));
    assert_eq!(url, "https://live.staticflickr.com/65535/53_abc_b.jpg");
}

#[test]
fn large_suffix_is_b() {
    assert_eq!(PhotoSize::Large.get_suffix(), "b");
}

#[test]
fn picture_feed_maps_photos_in_order() {
    let mut second = sample_photo();
    second.id = "54".to_string();
    second.secret = "xyz".to_string();
    let response = FlickrGetPhotosResponse {
        photos: Photos {
            page: 1,
            pages: 1,
            perpage: 2,
            total: 2,
            photo: vec![sample_photo(), second],
        },
        stat: "ok".to_string(),
    };
    let feed = Pictures::from_response(response, Some(PhotoSize::Large));
    assert_eq!(feed.recent_pictures.len(), 2);
    assert_eq!(feed.recent_pictures[0].id, "53");
    assert_eq!(feed.recent_pictures[0].url, "https://live.staticflickr.com/65535/53_abc_b.jpg");
    assert_eq!(feed.recent_pictures[1].id, "54");
    assert_eq!(feed.recent_pictures[1].url, "https://live.staticflickr.com/65535/54_xyz_b.jpg");
}
