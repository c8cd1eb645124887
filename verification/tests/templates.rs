use esmeril::template::{ci, files, readme, slugify, wally_toml};

#[test]
fn slugify_kebab_cases_names() {
    assert_eq!(slugify("mygame"), "mygame");
    assert_eq!(slugify("My Game"), "my-game");
    assert_eq!(slugify("my__game"), "my-game");
    assert_eq!(slugify("My-Game 2"), "my-game-2");
    assert_eq!(slugify("!!!"), "game");
}

#[test]
fn wally_name_is_always_valid() {
    for name in ["My Game", "escarlate!", "foo_bar-baz", "café"] {
        let wally = wally_toml(name);
        let value: toml::Value = toml::from_str(&wally).unwrap();
        let pkg = value.get("package").and_then(|p| p.as_table()).unwrap();
        let name = pkg.get("name").and_then(|n| n.as_str()).unwrap();
        let mut parts = name.split('/');
        let scope = parts.next().unwrap();
        let pkg_name = parts.next().unwrap();
        assert!(!scope.is_empty() && parts.next().is_none());
        assert!(
            pkg_name
                .chars()
                .all(|c| c.is_ascii_lowercase() || c.is_ascii_digit() || c == '-')
                && !pkg_name.is_empty()
        );
    }
}

#[test]
fn slugify_is_idempotent() {
    for name in ["My Game", "  --Weird__Name--  ", "ÀÉ", "a1-B2", "!!!", ""] {
        let once = slugify(name);
        assert_eq!(slugify(&once), once);
        assert!(!once.is_empty());
        assert!(!once.starts_with('-') && !once.ends_with('-'));
        assert!(!once.contains("--"));
    }
}

#[test]
fn game_files_in_path_order() {
    let fs = files("My Game", false, false);
    let paths: Vec<&str> = fs.iter().map(|(p, _)| p.as_str()).collect();
    assert_eq!(
        paths,
        vec![
            ".github/workflows/ci.yml",
            ".gitignore",
            ".luaurc",
            ".selene.toml",
            "README.md",
            "aftman.toml",
            "default.project.json",
            "src/client/init.client.lua",
            "src/server/init.server.lua",
            "src/shared/init.lua",
            "stylua.toml",
            "wally.toml",
        ]
    );
    let luaurc = &fs[2].1;
    assert_eq!(luaurc, "{\n  \"languageMode\": {\n    \"src/\": \"NonStrict\"\n  }\n}");
    assert!(fs[11].1.contains("name = \"user/my-game\""));
}

#[test]
fn library_files_and_strict_mode() {
    let fs = files("lib", true, true);
    let paths: Vec<&str> = fs.iter().map(|(p, _)| p.as_str()).collect();
    assert!(paths.contains(&"src/init.lua"));
    assert!(!paths.iter().any(|p| p.starts_with("src/server")));
    let luaurc = &fs.iter().find(|(p, _)| p == ".luaurc").unwrap().1;
    assert!(luaurc.contains("Strict"));
    let project = &fs.iter().find(|(p, _)| p == "default.project.json").unwrap().1;
    let v: serde_json::Value = serde_json::from_str(project).unwrap();
    assert_eq!(v["name"], "lib");
    assert_eq!(v["tree"]["$path"], "src");
    assert!(ci(true).ends_with("      - run: rojo build -o lib.rbxm\n"));
    assert!(ci(false).ends_with("      - run: rojo build -o game.rbxl\n"));
}

#[test]
fn project_json_escapes_the_name() {
    let fs = files("a \"quoted\"\\ name\n", false, false);
    let project = &fs.iter().find(|(p, _)| p == "default.project.json").unwrap().1;
    assert!(project.contains("\"name\": \"a \\\"quoted\\\"\\\\ name\\n\""));
    let v: serde_json::Value = serde_json::from_str(project).unwrap();
    assert_eq!(v["name"], "a \"quoted\"\\ name\n");
    assert_eq!(v["tree"]["ServerScriptService"]["server"]["$path"], "src/server");
}

#[test]
fn readme_names_the_project() {
    assert!(readme("Foo", false).starts_with("# Foo\n\nRoblox game scaffolded with esmeril."));
    assert!(readme("Foo", true).contains("`name = \"scope/Foo\"`"));
}

#[test]
fn slugify_keeps_letters_and_digits_in_order() {
    for name in ["  Über Cool_Game 2!  ", "A-b--C", "x", "9 lives", "--Hi--"] {
        let letters: String = name
            .chars()
            .filter(|c| c.is_ascii_alphanumeric())
            .map(|c| c.to_ascii_lowercase())
            .collect();
        assert_eq!(slugify(name).replace('-', ""), letters);
    }
    assert_eq!(slugify("-- __ --"), "game");
}
