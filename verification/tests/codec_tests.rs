use bas_studio::codec::{
    all_names_fit, asset_entry, encode_project_file, obfuscate, open_project_file, plan_entries,
    read_asset, sanitize_asset_name, seal_archive, write_archive, ArchiveEntry, CodecError,
    FaultKind, MAX_ENTRY_NAME_BYTES,
};

#[test]
fn obfuscate_flips_with_fixed_key() {
    let mut data = vec![0x00u8, 0xFF, 0xA5, 0x5A, 0x31];
    obfuscate(&mut data);
    assert_eq!(data, vec![0xA5u8, 0x5A, 0x00, 0xFF, 0x94]);
}

#[test]
fn obfuscate_twice_is_identity() {
    let plain: Vec<u8> = (0..=255u8).collect();
    let mut data = plain.clone();
    obfuscate(&mut data);
    assert_ne!(data, plain);
    obfuscate(&mut data);
    assert_eq!(data, plain);
}

#[test]
fn sanitize_keeps_safe_characters() {
    assert_eq!(sanitize_asset_name("Plan_A-1.v2.pdf"), "Plan_A-1.v2.pdf");
}

#[test]
fn sanitize_replaces_everything_else() {
    assert_eq!(sanitize_asset_name("floor plan (2).png"), "floor_plan__2_.png");
    assert_eq!(sanitize_asset_name("gr\u{fc}n/\u{1F3E2}.jpg"), "gr_n__.jpg");
}

#[test]
fn sanitize_falls_back_for_empty_name() {
    assert_eq!(sanitize_asset_name(""), "asset.bin");
}

#[test]
fn project_file_round_trip_with_assets() {
    let payload = b"{\"name\":\"Demo\"}".to_vec();
    let image = vec![1u8, 2, 3, 4, 5];
    let pdf = vec![9u8; 4096];
    let file = encode_project_file(
        &payload,
        &Some("overview.png".to_string()),
        &Some(image.clone()),
        &Some("plan.pdf".to_string()),
        &Some(pdf.clone()),
    )
    .expect("encode");
    assert_ne!(&file[..2], b"PK");
    let mut opened = open_project_file(file).expect("open");
    assert_eq!(opened.payload, payload);
    let got_image = read_asset(&mut opened.archive, &Some("overview.png".to_string())).expect("image");
    assert_eq!(got_image, Some(image));
    let got_pdf = read_asset(&mut opened.archive, &Some("plan.pdf".to_string())).expect("pdf");
    assert_eq!(got_pdf, Some(pdf));
}

#[test]
fn project_file_is_archive_under_the_transform() {
    let payload = b"{}".to_vec();
    let mut file = encode_project_file(&payload, &None, &None, &None, &None).expect("encode");
    obfuscate(&mut file);
    assert_eq!(&file[..2], b"PK");
}

#[test]
fn asset_without_bytes_is_not_written() {
    let payload = b"{}".to_vec();
    let file = encode_project_file(&payload, &Some("overview.png".to_string()), &None, &None, &None)
        .expect("encode");
    let mut opened = open_project_file(file).expect("open");
    let got = read_asset(&mut opened.archive, &Some("overview.png".to_string())).expect("read");
    assert_eq!(got, None);
}

#[test]
fn unnamed_asset_is_absent() {
    let payload = b"{}".to_vec();
    let file = encode_project_file(&payload, &None, &Some(vec![1, 2, 3]), &None, &None).expect("encode");
    let mut opened = open_project_file(file).expect("open");
    assert_eq!(read_asset(&mut opened.archive, &None).expect("read"), None);
}

#[test]
fn garbage_is_refused_as_archive() {
    let result = open_project_file(vec![1u8, 2, 3, 4, 5, 6, 7, 8]);
    assert!(matches!(result, Err(CodecError::Zip(_))));
}

#[test]
fn archive_without_project_entry_is_refused() {
    let mut empty_zip = vec![0x50u8, 0x4B, 0x05, 0x06];
    empty_zip.extend(vec![0u8; 18]);
    obfuscate(&mut empty_zip);
    let result = open_project_file(empty_zip);
    assert!(matches!(result, Err(CodecError::Zip(_))));
}

#[test]
fn duplicate_asset_names_fail_the_encoding() {
    let payload = b"{}".to_vec();
    let result = encode_project_file(
        &payload,
        &Some("same.bin".to_string()),
        &Some(vec![1]),
        &Some("same.bin".to_string()),
        &Some(vec![2]),
    );
    assert!(matches!(result, Err(CodecError::Zip(_))));
}

#[test]
fn plan_lists_project_then_assets_with_name_and_bytes() {
    let payload = vec![1u8, 2, 3];
    let image = Some(vec![4u8]);
    let none: Option<Vec<u8>> = None;
    let pdf = Some(vec![5u8, 6]);
    let plan = plan_entries(
        &payload,
        &Some("a.png".to_string()),
        &image,
        &Some("b.pdf".to_string()),
        &pdf,
    );
    let listed: Vec<(&str, &Vec<u8>)> = plan.iter().map(|e| (e.name.as_str(), e.data)).collect();
    assert_eq!(
        listed,
        vec![
            ("project.json", &vec![1u8, 2, 3]),
            ("assets/a.png", &vec![4u8]),
            ("assets/b.pdf", &vec![5u8, 6]),
        ]
    );
    let plan = plan_entries(&payload, &Some("a.png".to_string()), &none, &None, &pdf);
    let names: Vec<&str> = plan.iter().map(|e| e.name.as_str()).collect();
    assert_eq!(names, vec!["project.json"]);
    let plan = plan_entries(&payload, &None, &image, &Some("b.pdf".to_string()), &pdf);
    let names: Vec<&str> = plan.iter().map(|e| e.name.as_str()).collect();
    assert_eq!(names, vec!["project.json", "assets/b.pdf"]);
    assert_eq!(asset_entry("x y.bin"), "assets/x y.bin");
}

#[test]
fn written_archive_reads_back_after_sealing() {
    let first = vec![7u8; 10];
    let second = Vec::new();
    let entries = vec![
        ArchiveEntry { name: "project.json".to_string(), data: &first },
        ArchiveEntry { name: "assets/empty".to_string(), data: &second },
    ];
    let archive = write_archive(&entries).expect("write");
    assert_eq!(&archive[..4], b"PK\x03\x04");
    let sealed = seal_archive(archive.clone());
    assert_eq!(sealed.len(), archive.len());
    assert!(sealed.iter().zip(archive.iter()).all(|(s, a)| *s == *a ^ 0xA5));
    let mut opened = open_project_file(sealed).expect("open");
    assert_eq!(opened.payload, first);
    assert_eq!(read_asset(&mut opened.archive, &Some("empty".to_string())).unwrap(), Some(Vec::new()));
    assert_eq!(read_asset(&mut opened.archive, &Some("other".to_string())).unwrap(), None);
}

#[test]
fn same_entries_give_the_same_archive() {
    let first = b"{\"name\":\"Demo\"}".to_vec();
    let second = vec![3u8; 2000];
    let entries = vec![
        ArchiveEntry { name: "project.json".to_string(), data: &first },
        ArchiveEntry { name: "assets/plan.pdf".to_string(), data: &second },
    ];
    let one = write_archive(&entries).expect("write");
    let two = write_archive(&entries).expect("write");
    assert_eq!(one, two);
    let other = vec![ArchiveEntry { name: "project.json".to_string(), data: &second }];
    assert_ne!(write_archive(&other).expect("write"), one);
}

#[test]
fn encoded_file_is_the_sealed_archive_of_the_plan() {
    let payload = vec![1u8, 2, 3];
    let image = Some(vec![4u8, 5]);
    let name = Some("a.png".to_string());
    let file = encode_project_file(&payload, &name, &image, &None, &None).expect("encode");
    let plan = plan_entries(&payload, &name, &image, &None, &None);
    let archive = write_archive(&plan).expect("write");
    assert_eq!(file, seal_archive(archive));
}

#[test]
fn name_that_does_not_fit_is_refused_before_writing() {
    let payload = b"{}".to_vec();
    let bytes = Some(vec![1u8, 2, 3]);
    let longest = "n".repeat(MAX_ENTRY_NAME_BYTES - "assets/".len());
    let too_long = "n".repeat(MAX_ENTRY_NAME_BYTES - "assets/".len() + 1);
    let file = encode_project_file(&payload, &Some(longest.clone()), &bytes, &None, &None)
        .expect("a name of 65535 bytes fits");
    let mut opened = open_project_file(file).expect("open");
    assert_eq!(read_asset(&mut opened.archive, &Some(longest)).expect("read"), bytes);
    let refused = encode_project_file(&payload, &Some(too_long.clone()), &bytes, &None, &None);
    assert!(matches!(refused, Err(CodecError::NameTooLong)));
    assert_eq!(refused.unwrap_err().kind(), FaultKind::NameTooLong);
    let refused = encode_project_file(&payload, &None, &None, &Some(too_long.clone()), &bytes);
    assert!(matches!(refused, Err(CodecError::NameTooLong)));
    let unwritten = encode_project_file(&payload, &Some(too_long), &None, &None, &None);
    assert!(unwritten.is_ok());
}

#[test]
fn name_length_counts_bytes() {
    let data = Vec::new();
    let wide = "\u{20ac}".repeat(21845);
    assert_eq!(wide.len(), 65535);
    let fits = vec![ArchiveEntry { name: wide.clone(), data: &data }];
    assert!(all_names_fit(&fits));
    assert!(write_archive(&fits).is_ok());
    let wider = vec![
        ArchiveEntry { name: "a".to_string(), data: &data },
        ArchiveEntry { name: format!("{wide}x"), data: &data },
    ];
    assert!(!all_names_fit(&wider));
    assert!(matches!(write_archive(&wider), Err(CodecError::NameTooLong)));
    assert!(all_names_fit(&Vec::new()));
}

#[test]
fn failures_tell_their_kind() {
    let payload = b"{}".to_vec();
    let twice = encode_project_file(
        &payload,
        &Some("same.bin".to_string()),
        &Some(vec![1]),
        &Some("same.bin".to_string()),
        &Some(vec![2]),
    );
    assert_eq!(twice.unwrap_err().kind(), FaultKind::Zip);
    let garbage = open_project_file(vec![9u8; 40]);
    assert_eq!(garbage.unwrap_err().kind(), FaultKind::Zip);
}
