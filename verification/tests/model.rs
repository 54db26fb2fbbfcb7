use llrs::model::{key_eq, manga_by_id, FetchKey, Manga};

fn manga(id: i32, name: &str) -> Manga {
    Manga {
        manga_id: id,
        manga_name: name.to_string(),
        author_names: vec!["Author".to_string()],
        artist_names: vec!["Artist".to_string()],
        cover_image_url: "http://example.test/cover.png".to_string(),
        purchase_url: String::new(),
    }
}

#[test]
fn it_works() {
    assert_eq!(2 + 2, 4);
}

#[test]
fn manga_by_id_finds_the_matching_record() {
    let mangas = vec![manga(1, "First"), manga(7, "Seventh"), manga(3, "Third")];
    let found = manga_by_id(&mangas, 7).expect("id 7 is present");
    assert_eq!(found.manga_name, "Seventh");
    assert!(manga_by_id(&mangas, 99).is_none());
}

#[test]
fn key_eq_distinguishes_requests() {
    let a = FetchKey::AllManga;
    let c5 = FetchKey::ChaptersFor { manga_id: 5 };
    let c6 = FetchKey::ChaptersFor { manga_id: 6 };
    let p1 = FetchKey::PagesFor {
        manga_id: 5,
        chapter_number: "10.5".to_string(),
    };
    let p2 = FetchKey::PagesFor {
        manga_id: 5,
        chapter_number: "10.5".to_string(),
    };
    let p3 = FetchKey::PagesFor {
        manga_id: 5,
        chapter_number: "11".to_string(),
    };
    assert!(key_eq(&a, &FetchKey::AllManga));
    assert!(key_eq(&c5, &c5.clone()));
    assert!(!key_eq(&c5, &c6));
    assert!(!key_eq(&a, &c5));
    assert!(key_eq(&p1, &p2));
    assert!(!key_eq(&p1, &p3));
    assert!(!key_eq(&p1, &c5));
}
