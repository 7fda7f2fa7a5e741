use afdb_core::session::{
    collect_geometry, session_file_contents, session_file_name, WindowGeometry,
};

#[test]
fn session_file_contents_exact_text() {
    let paths = vec!["/db/alpha.afdb".to_string()];
    let geometry = vec![(
        "/db/alpha.afdb".to_string(),
        WindowGeometry { x: 10, y: -20, width: 800, height: 600 },
    )];
    let text = session_file_contents(&paths, &geometry);
    assert_eq!(
        text,
        "{\"openDatabases\":[\"/db/alpha.afdb\"],\"windowGeometry\":{\"/db/alpha.afdb\":{\"x\":10,\"y\":-20,\"width\":800,\"height\":600}}}"
    );
}

#[test]
fn empty_session_file_contents() {
    let text = session_file_contents(&vec![], &vec![]);
    assert_eq!(text, "{\"openDatabases\":[],\"windowGeometry\":{}}");
}

#[test]
fn session_round_trip_through_a_json_parser() {
    // Paths with characters that need escaping must survive a write and
    // re-parse without loss.
    let weird = "/tmp/we\"ird\\db\n1".to_string();
    let plain = "/data/plain.afdb".to_string();
    let paths = vec![weird.clone(), plain.clone()];
    let geometry = vec![
        (weird.clone(), WindowGeometry { x: -1, y: 2, width: 3, height: 4 }),
        (plain.clone(), WindowGeometry { x: 0, y: 0, width: 1024, height: 768 }),
    ];
    let text = session_file_contents(&paths, &geometry);

    let v: serde_json::Value = serde_json::from_str(&text).unwrap();
    let open = v["openDatabases"].as_array().unwrap();
    let reread: Vec<String> =
        open.iter().map(|p| p.as_str().unwrap().to_string()).collect();
    assert_eq!(reread, paths);

    let geo = v["windowGeometry"].as_object().unwrap();
    assert_eq!(geo.len(), 2);
    for (path, g) in &geometry {
        let got = &geo[path];
        assert_eq!(got["x"].as_i64().unwrap(), g.x as i64);
        assert_eq!(got["y"].as_i64().unwrap(), g.y as i64);
        assert_eq!(got["width"].as_u64().unwrap(), g.width as u64);
        assert_eq!(got["height"].as_u64().unwrap(), g.height as u64);
    }
}

#[test]
fn collect_geometry_keeps_only_answered_queries() {
    let entries = vec![
        ("w1".to_string(), "/a".to_string()),
        ("w2".to_string(), "/b".to_string()),
        ("w3".to_string(), "/c".to_string()),
    ];
    let g = WindowGeometry { x: 5, y: 6, width: 7, height: 8 };
    let results = vec![None, Some(g), None];
    let kept = collect_geometry(&entries, &results);
    assert_eq!(kept, vec![("/b".to_string(), g)]);
}

#[test]
fn session_file_name_is_fixed() {
    assert_eq!(session_file_name(), "session.json");
}
