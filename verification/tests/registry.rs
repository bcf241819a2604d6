use edit0r::Face;
use edit0r::FaceColor;
use edit0r::Faces;

fn rgb(r: u8, g: u8, b: u8) -> Face {
    Face { fg: FaceColor::Rgb(r, g, b), bg: FaceColor::Rgb(0, 0, 0) }
}

#[test]
fn put_face_issues_sequential_ids() {
    let mut faces = Faces::new();
    assert_eq!(faces.put_face("default".to_string(), Face::default()), 0);
    assert_eq!(faces.put_face("keyword".to_string(), rgb(255, 0, 0)), 1);
    assert_eq!(faces.put_face("comment".to_string(), rgb(150, 150, 150)), 2);
    assert_eq!(faces.face_count(), 3);
}

#[test]
fn put_face_is_idempotent_upsert() {
    let mut faces = Faces::new();
    let id = faces.put_face("keyword".to_string(), rgb(255, 0, 0));
    let id2 = faces.put_face("keyword".to_string(), rgb(0, 255, 0));
    assert_eq!(id, id2);
    assert_eq!(faces.face_count(), 1);
    assert_eq!(faces.get_face_by_id(id), Some(&rgb(0, 255, 0)));
}

#[test]
fn lookup_unknown_name_fails_softly() {
    let faces = Faces::new();
    assert_eq!(faces.get_face_id(&"nope".to_string()), None);
    assert!(faces.get_face_by_name(&"nope".to_string()).is_none());
    assert!(faces.get_face_by_id(7).is_none());
}

#[test]
fn lookup_by_name_finds_the_face() {
    let mut faces = Faces::new();
    faces.put_face("keyword".to_string(), rgb(255, 0, 0));
    assert_eq!(faces.get_face_by_name(&"keyword".to_string()), Some(&rgb(255, 0, 0)));
}

#[test]
fn default_and_invalid_faces() {
    let d = Face::default();
    assert_eq!(d.fg, FaceColor::Rgb(255, 255, 255));
    assert_eq!(d.bg, FaceColor::Rgb(0, 0, 0));
    let i = Face::invalid();
    assert_eq!(i.bg, FaceColor::Rgb(255, 0, 0));
}

#[test]
fn theme_load_twice_keeps_ids() {
    let mut faces = Faces::new();
    faces.put_face("default".to_string(), Face::default());
    let theme = || vec![
        ("keyword".to_string(), rgb(255, 0, 0)),
        ("function".to_string(), rgb(0, 255, 0)),
        ("comment".to_string(), rgb(150, 150, 150)),
    ];
    faces.load_theme_faces(theme());
    let kw = faces.get_face_id(&"keyword".to_string());
    let fun = faces.get_face_id(&"function".to_string());
    let com = faces.get_face_id(&"comment".to_string());
    faces.load_theme_faces(theme());
    assert_eq!(faces.get_face_id(&"keyword".to_string()), kw);
    assert_eq!(faces.get_face_id(&"function".to_string()), fun);
    assert_eq!(faces.get_face_id(&"comment".to_string()), com);
}

#[test]
fn theme_shared_name_keeps_id_and_updates_face() {
    let mut faces = Faces::new();
    faces.put_face("default".to_string(), Face::default());
    faces.load_theme_faces(vec![
        ("keyword".to_string(), rgb(255, 0, 0)),
        ("comment".to_string(), rgb(150, 150, 150)),
    ]);
    let kw = faces.get_face_id(&"keyword".to_string()).unwrap();
    faces.load_theme_faces(vec![
        ("keyword".to_string(), rgb(200, 100, 0)),
        ("string".to_string(), rgb(0, 0, 255)),
    ]);
    assert_eq!(faces.get_face_id(&"keyword".to_string()), Some(kw));
    assert_eq!(faces.get_face_by_name(&"keyword".to_string()), Some(&rgb(200, 100, 0)));
}

#[test]
fn theme_unload_drops_names_but_keeps_slots() {
    let mut faces = Faces::new();
    faces.load_theme_faces(vec![
        ("keyword".to_string(), rgb(255, 0, 0)),
        ("comment".to_string(), rgb(150, 150, 150)),
    ]);
    let com = faces.get_face_id(&"comment".to_string()).unwrap();
    faces.load_theme_faces(vec![("keyword".to_string(), rgb(255, 0, 0))]);
    // The name is gone from the map ...
    assert_eq!(faces.get_face_id(&"comment".to_string()), None);
    // ... but the slot still renders with whatever face last occupied it.
    assert_eq!(faces.get_face_by_id(com), Some(&rgb(150, 150, 150)));
}

#[test]
fn empty_theme_unbinds_all_theme_names() {
    let mut faces = Faces::new();
    let perm = faces.put_face("default".to_string(), Face::default());
    faces.load_theme_faces(vec![("keyword".to_string(), rgb(255, 0, 0))]);
    let kw = faces.get_face_id(&"keyword".to_string()).unwrap();
    faces.load_theme_faces(Vec::new());
    assert_eq!(faces.get_face_id(&"keyword".to_string()), None);
    // Permanent faces and the vacated slot survive.
    assert_eq!(faces.get_face_id(&"default".to_string()), Some(perm));
    assert_eq!(faces.get_face_by_id(kw), Some(&rgb(255, 0, 0)));
}

#[test]
fn theme_names_distinct_detects_duplicates() {
    let ok = vec![
        ("keyword".to_string(), rgb(255, 0, 0)),
        ("comment".to_string(), rgb(150, 150, 150)),
    ];
    assert!(edit0r::faces::theme_names_distinct(&ok));
    let dup = vec![
        ("keyword".to_string(), rgb(255, 0, 0)),
        ("keyword".to_string(), rgb(0, 255, 0)),
    ];
    assert!(!edit0r::faces::theme_names_distinct(&dup));
    let empty: Vec<(String, edit0r::Face)> = Vec::new();
    assert!(edit0r::faces::theme_names_distinct(&empty));
}

#[test]
fn theme_growth_allocates_new_slots() {
    let mut faces = Faces::new();
    faces.put_face("default".to_string(), Face::default());
    faces.load_theme_faces(vec![("keyword".to_string(), rgb(255, 0, 0))]);
    faces.load_theme_faces(vec![
        ("keyword".to_string(), rgb(255, 0, 0)),
        ("string".to_string(), rgb(0, 0, 255)),
    ]);
    let kw = faces.get_face_id(&"keyword".to_string()).unwrap();
    let st = faces.get_face_id(&"string".to_string()).unwrap();
    assert_ne!(kw, st);
    assert_eq!(faces.get_face_by_id(st), Some(&rgb(0, 0, 255)));
}
