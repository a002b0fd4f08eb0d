use game_launcher::config::Config;
use game_launcher::manifest::{field, size_in_tenths, Game, ManifestError};

fn chars(s: &str) -> Vec<char> {
    s.chars().collect()
}

fn text(v: &[char]) -> String {
    v.iter().collect()
}

fn config() -> Config {
    Config {
        steam_path: "C:\\Steam\\steamapps".to_string(),
        steam_game_cache_path: "C:\\Steam\\appcache\\librarycache".to_string(),
    }
}

const MANIFEST: &str = "\"AppState\"\n\
{\n\
\t\"appid\"\t\t\"730\"\n\
\t\"Universe\"\t\t\"1\"\n\
\t\"name\"\t\t\"Counter-Strike 2\"\n\
\t\"StateFlags\"\t\t\"4\"\n\
\t\"installdir\"\t\t\"Counter-Strike Global Offensive\"\n\
\t\"LastUpdated\"\t\t\"1700000000\"\n\
\t\"SizeOnDisk\"\t\t\"35489564147\"\n\
\t\"buildid\"\t\t\"12345678\"\n\
\t\"InstalledDepots\"\n\
\t{\n\
\t\t\"731\"\n\
\t\t{\n\
\t\t\t\"manifest\"\t\t\"6314304446937576250\"\n\
\t\t\t\"size\"\t\t\"35489564147\"\n\
\t\t}\n\
\t}\n\
}\n";

fn expected() -> Game {
    Game {
        appid: 730,
        size_tenths: 331,
        name: "Counter-Strike 2".to_string(),
        path: "C:\\Steam\\steamapps\\common\\Counter-Strike Global Offensive".to_string(),
        icon: "C:\\Steam\\appcache\\librarycache/730_icon.jpg".to_string(),
        logo: "C:\\Steam\\appcache\\librarycache/730_logo.jpg".to_string(),
        header: "C:\\Steam\\appcache\\librarycache/730_library_hero.jpg".to_string(),
    }
}

#[test]
fn manifest_with_known_fields_gives_the_record() {
    assert_eq!(Game::from_manifest(MANIFEST, &config()), Ok(expected()));
}

#[test]
fn manifest_with_carriage_returns_gives_the_same_record() {
    let crlf = MANIFEST.replace('\n', "\r\n");
    assert_eq!(Game::from_manifest(&crlf, &config()), Ok(expected()));
}

#[test]
fn size_is_rounded_to_one_decimal_of_a_gigabyte() {
    let game = Game::from_manifest("\"SizeOnDisk\" \"35489564147\"", &config()).unwrap();
    assert_eq!(game.size_tenths, 331);
    assert_eq!(game.size_text(), "33.1");
    let as_float = ((35489564147f64 / 1024f64.powi(3)) * 10.0).round() / 10.0;
    assert_eq!(game.size_text(), as_float.to_string());
}

#[test]
fn size_in_tenths_rounds_to_the_nearest_tenth() {
    assert_eq!(size_in_tenths(0), 0);
    assert_eq!(size_in_tenths(1), 0);
    assert_eq!(size_in_tenths(53687091), 0);
    assert_eq!(size_in_tenths(53687092), 1);
    assert_eq!(size_in_tenths(107374182), 1);
    assert_eq!(size_in_tenths(161061273), 1);
    assert_eq!(size_in_tenths(161061274), 2);
    assert_eq!(size_in_tenths(1073741824), 10);
    assert_eq!(size_in_tenths(1610612736), 15);
    assert_eq!(size_in_tenths(35489564147), 331);
    assert_eq!(size_in_tenths(u64::MAX), 171798691840);
}

#[test]
fn size_in_tenths_rounds_a_half_up() {
    assert_eq!(size_in_tenths(268435455), 2);
    assert_eq!(size_in_tenths(268435456), 3);
    assert_eq!(size_in_tenths(805306368), 8);
    assert_eq!(size_in_tenths(805306367), 7);
}

#[test]
fn size_in_tenths_agrees_with_floating_point() {
    let mut bytes: u64 = 1;
    while bytes < (1u64 << 50) {
        for b in [bytes - 1, bytes, bytes + 1, bytes * 3 / 2, bytes / 5 * 4] {
            let gb = b as f64 / 1024f64.powi(3);
            let rounded = (gb * 10.0).round();
            assert_eq!(size_in_tenths(b) as f64, rounded, "{}", b);
        }
        bytes *= 2;
    }
}

#[test]
fn size_text_shows_at_most_one_decimal() {
    let mut game = Game::default();
    let cases =
        [(0, "0"), (1, "0.1"), (5, "0.5"), (10, "1"), (15, "1.5"), (331, "33.1"), (1009, "100.9")];
    for (tenths, shown) in cases {
        game.size_tenths = tenths;
        assert_eq!(game.size_text(), shown);
        assert_eq!(game.size_text(), (tenths as f64 / 10.0).to_string());
    }
    game.size_tenths = 171798691840;
    assert_eq!(game.size_text(), "17179869184");
}

#[test]
fn unrecognized_keys_do_not_alter_the_record() {
    let plain = "\"appid\" \"730\"\n\
\"name\" \"Counter-Strike 2\"\n\
\"installdir\" \"cs\"\n\
\"SizeOnDisk\" \"1073741824\"";
    let noisy = "\"Universe\" \"1\"\n\
\"appid\" \"730\"\n\
\"StateFlags\" \"4\"\n\
\"name\" \"Counter-Strike 2\"\n\
\"buildid\" \"x y z\"\n\
\"installdir\" \"cs\"\n\
\"APPID\" \"1\"\n\
\"SizeOnDisk\" \"1073741824\"\n\
\"size\" \"not a number\"\n\
{\n\
}\n\
\n\
\"Name\" \"other\"";
    let a = Game::from_manifest(plain, &config()).unwrap();
    let b = Game::from_manifest(noisy, &config()).unwrap();
    assert_eq!(a, b);
    assert_eq!(a.appid, 730);
    assert_eq!(a.size_tenths, 10);
    assert_eq!(a.name, "Counter-Strike 2");
    assert_eq!(a.path, "C:\\Steam\\steamapps\\common\\cs");
}

#[test]
fn manifest_of_unrecognized_keys_only_gives_the_blank_record_with_images() {
    let game = Game::from_manifest("\"Universe\" \"1\"\n\"StateFlags\" \"4\"", &config()).unwrap();
    assert_eq!(game.appid, 0);
    assert_eq!(game.size_tenths, 0);
    assert_eq!(game.name, "");
    assert_eq!(game.path, "");
    assert_eq!(game.icon, "C:\\Steam\\appcache\\librarycache/0_icon.jpg");
    assert_eq!(game.logo, "C:\\Steam\\appcache\\librarycache/0_logo.jpg");
    assert_eq!(game.header, "C:\\Steam\\appcache\\librarycache/0_library_hero.jpg");
}

#[test]
fn empty_manifest_gives_the_blank_record_with_images() {
    let with_empty = Game::from_manifest("", &config()).unwrap();
    let with_noise = Game::from_manifest("\"Universe\" \"1\"", &config()).unwrap();
    assert_eq!(with_empty, with_noise);
    assert_eq!(with_empty.icon, "C:\\Steam\\appcache\\librarycache/0_icon.jpg");
}

#[test]
fn images_follow_from_the_number_wherever_it_stands() {
    let first = Game::from_manifest("appid 440\nname \"Team Fortress 2\"", &config()).unwrap();
    let last = Game::from_manifest("name \"Team Fortress 2\"\nappid 440", &config()).unwrap();
    assert_eq!(first, last);
    assert_eq!(first.icon, "C:\\Steam\\appcache\\librarycache/440_icon.jpg");
    assert_eq!(first.header, "C:\\Steam\\appcache\\librarycache/440_library_hero.jpg");
    assert_eq!(first.logo, "C:\\Steam\\appcache\\librarycache/440_logo.jpg");
}

#[test]
fn negative_number_is_written_with_its_sign() {
    let game = Game::from_manifest("appid -5", &config()).unwrap();
    assert_eq!(game.appid, -5);
    assert_eq!(game.icon, "C:\\Steam\\appcache\\librarycache/-5_icon.jpg");
    assert_eq!(game.launch_uri(), "steam://run/-5");
}

#[test]
fn later_field_replaces_earlier_one() {
    let text = "appid 1\nname one\nappid 2\nname two\ninstalldir a\ninstalldir b";
    let game = Game::from_manifest(text, &config()).unwrap();
    assert_eq!(game.appid, 2);
    assert_eq!(game.name, "two");
    assert_eq!(game.path, "C:\\Steam\\steamapps\\common\\b");
    assert_eq!(game.icon, "C:\\Steam\\appcache\\librarycache/2_icon.jpg");
}

#[test]
fn keys_are_told_apart_by_case() {
    let text = "AppId 5\nNAME x\nsizeondisk 1073741824\nInstallDir d";
    let game = Game::from_manifest(text, &config()).unwrap();
    assert_eq!(game, Game::from_manifest("", &config()).unwrap());
}

#[test]
fn value_is_the_other_words_with_one_space_between() {
    let text = "\"name\"\t\"Half-Life   2:\tEpisode   One\"  ";
    let game = Game::from_manifest(text, &config()).unwrap();
    assert_eq!(game.name, "Half-Life 2: Episode One");
}

#[test]
fn quotes_inside_a_value_stay() {
    let game = Game::from_manifest("\"name\" \"\"The \"Best\" Game\"\"", &config()).unwrap();
    assert_eq!(game.name, "The \"Best\" Game");
}

#[test]
fn quotes_at_the_ends_of_the_manifest_are_left_aside() {
    let game = Game::from_manifest("\"\"appid\" \"7\"\nname x\"\"\"", &config()).unwrap();
    assert_eq!(game.appid, 7);
    assert_eq!(game.name, "x");
}

#[test]
fn line_of_one_word_says_nothing() {
    let game = Game::from_manifest("appid\nname\n\"SizeOnDisk\"\ninstalldir", &config()).unwrap();
    assert_eq!(game, Game::from_manifest("", &config()).unwrap());
}

#[test]
fn malformed_number_gives_app_id_error() {
    assert_eq!(Game::from_manifest("\"appid\" \"seven\"", &config()), Err(ManifestError::AppId));
    assert_eq!(Game::from_manifest("\"appid\" \"7 3 0\"", &config()), Err(ManifestError::AppId));
    assert_eq!(Game::from_manifest("\"appid\" \"7.0\"", &config()), Err(ManifestError::AppId));
    assert_eq!(
        Game::from_manifest("\"appid\" \"9223372036854775808\"", &config()),
        Err(ManifestError::AppId)
    );
    assert_eq!(Game::from_manifest("{\n\"appid\" \"\"\n}", &config()), Err(ManifestError::AppId));
}

#[test]
fn quotes_at_the_end_of_the_manifest_do_not_count_as_a_value() {
    let game = Game::from_manifest("\"appid\" \"\"", &config()).unwrap();
    assert_eq!(game.appid, 0);
}

#[test]
fn malformed_size_gives_size_error() {
    assert_eq!(Game::from_manifest("\"SizeOnDisk\" \"big\"", &config()), Err(ManifestError::Size));
    assert_eq!(Game::from_manifest("\"SizeOnDisk\" \"-1\"", &config()), Err(ManifestError::Size));
    assert_eq!(
        Game::from_manifest("\"SizeOnDisk\" \"1.5e9\"", &config()),
        Err(ManifestError::Size)
    );
    assert_eq!(
        Game::from_manifest("\"SizeOnDisk\" \"18446744073709551616\"", &config()),
        Err(ManifestError::Size)
    );
}

#[test]
fn first_malformed_field_decides_the_error() {
    assert_eq!(
        Game::from_manifest("name ok\nSizeOnDisk x\nappid y", &config()),
        Err(ManifestError::Size)
    );
    assert_eq!(
        Game::from_manifest("name ok\nappid y\nSizeOnDisk x", &config()),
        Err(ManifestError::AppId)
    );
    assert_eq!(Game::from_manifest("appid y\nappid 7", &config()), Err(ManifestError::AppId));
    assert_eq!(Game::from_manifest("appid 7\nappid y", &config()), Err(ManifestError::AppId));
}

#[test]
fn largest_numbers_are_read() {
    let game = Game::from_manifest(
        "appid -9223372036854775808\nSizeOnDisk 18446744073709551615",
        &config(),
    )
    .unwrap();
    assert_eq!(game.appid, i64::MIN);
    assert_eq!(game.size_tenths, 171798691840);
    assert_eq!(game.icon, "C:\\Steam\\appcache\\librarycache/-9223372036854775808_icon.jpg");
}

#[test]
fn paths_are_built_on_the_configured_directories() {
    let other = Config { steam_path: "D:\\Lib".to_string(), steam_game_cache_path: "".to_string() };
    let game = Game::from_manifest("appid 10\ninstalldir \"Half-Life\"", &other).unwrap();
    assert_eq!(game.path, "D:\\Lib\\common\\Half-Life");
    assert_eq!(game.icon, "/10_icon.jpg");
    assert_eq!(game.header_uri(), "file:///10_library_hero.jpg");
}

#[test]
fn field_gives_key_and_value() {
    let (key, value) = field(&chars("\t\"name\"\t\t\"Counter-Strike  2\"\r")).unwrap();
    assert_eq!(text(&key), "name");
    assert_eq!(text(&value), "Counter-Strike 2");
    let (key, value) = field(&chars("a b")).unwrap();
    assert_eq!(text(&key), "a");
    assert_eq!(text(&value), "b");
    let (key, value) = field(&chars("\"\" \"\"")).unwrap();
    assert_eq!(text(&key), "");
    assert_eq!(text(&value), "");
}

#[test]
fn field_needs_two_words() {
    assert_eq!(field(&chars("")), None);
    assert_eq!(field(&chars("   ")), None);
    assert_eq!(field(&chars("{")), None);
    assert_eq!(field(&chars("  \"AppState\"  ")), None);
}

#[test]
fn default_record_is_blank() {
    let game = Game::default();
    assert_eq!(game.appid, 0);
    assert_eq!(game.size_tenths, 0);
    assert_eq!(game.name, "");
    assert_eq!(game.path, "");
    assert_eq!(game.icon, "");
    assert_eq!(game.logo, "");
    assert_eq!(game.header, "");
}

#[test]
fn clone_keeps_every_field() {
    let game = expected();
    assert_eq!(game.clone(), game);
}

#[test]
fn addresses_are_built_from_the_record() {
    let game = expected();
    assert_eq!(game.launch_uri(), "steam://run/730");
    assert_eq!(game.header_uri(), "file://C:\\Steam\\appcache\\librarycache/730_library_hero.jpg");
}

/// The record of a manifest, read with the text functions of the standard
/// library.
fn read_with_std(contents: &str, config: &Config) -> Result<Game, ManifestError> {
    let mut game = Game::default();
    for line in contents.trim_matches('"').split("\n") {
        let words: Vec<&str> = line.split_whitespace().collect();
        if words.len() >= 2 {
            let key = words[0].trim_matches('"');
            let value = words[1..].join(" ").trim_matches('"').to_string();
            match key {
                "appid" => game.appid = value.parse().map_err(|_| ManifestError::AppId)?,
                "SizeOnDisk" => {
                    let bytes: u64 = value.parse().map_err(|_| ManifestError::Size)?;
                    game.size_tenths = ((bytes as u128 * 10 + (1 << 29)) >> 30) as u64;
                }
                "name" => game.name = value,
                "installdir" => {
                    game.path = format!("{}\\{}\\{}", config.steam_path, "common", value)
                }
                _ => {}
            }
        }
    }
    let cache = &config.steam_game_cache_path;
    game.icon = format!("{}/{}_icon.jpg", cache, game.appid);
    game.header = format!("{}/{}_library_hero.jpg", cache, game.appid);
    game.logo = format!("{}/{}_logo.jpg", cache, game.appid);
    Ok(game)
}

#[test]
fn manifest_is_read_as_the_standard_library_reads_it() {
    let texts = [
        MANIFEST,
        "",
        "\"",
        "\"\"\"",
        "\n",
        "appid 5",
        "appid 5\r\nname a b\r\n",
        "\"appid\"\u{a0}\"12\"\n\"name\"\u{3000}\"wide  space\"",
        "appid\t+7\nSizeOnDisk\t+1073741824",
        "appid -0\nSizeOnDisk -0",
        "\"\"appid\"\" \"\"9\"\"",
        "name \" padded \"\ninstalldir \"\"",
        "appid 1 2",
        "SizeOnDisk 99999999999999999999",
    ];
    for text in texts {
        let read = Game::from_manifest(text, &config());
        assert_eq!(read, read_with_std(text, &config()), "{:?}", text);
    }
}

#[test]
fn generated_manifests_are_read_as_the_standard_library_reads_them() {
    let pieces = [
        "\"", "\"", " ", " ", "\t", "\n", "\n", "\r\n", "appid", "SizeOnDisk", "name",
        "installdir", "Universe", "0", "7", "42", "-", "+", "1073741824", "x", "Half-Life",
        "\u{a0}", "\u{e9}", "{", "}", "9223372036854775807", "18446744073709551615", "1",
    ];
    let mut state: u64 = 0x2545F4914F6CDD1D;
    for _ in 0..4000 {
        let mut text = String::new();
        state = state.wrapping_mul(6364136223846793005).wrapping_add(1442695040888963407);
        let length = (state >> 33) % 24;
        for _ in 0..length {
            state = state.wrapping_mul(6364136223846793005).wrapping_add(1442695040888963407);
            text.push_str(pieces[((state >> 33) % pieces.len() as u64) as usize]);
        }
        let read = Game::from_manifest(&text, &config());
        assert_eq!(read, read_with_std(&text, &config()), "{:?}", text);
    }
}
