use brokeamu::game::{
    aime_path_value, process_running, AimePathError, spice_config_game_name, spice_key_bindings, virtual_key_for, GameInstance,
    SegaToolsInstance, SpiceGameInstance, SpiceGameType,
};
use brokeamu::xml::{attribute_value, entry_of_events, try_xml_config_entry_str, xml_config_entry_str, XmlEvent, XmlScanError};

fn attr_pair(key: &str, value: &str) -> Option<(String, String)> {
    Some((key.to_string(), value.to_string()))
}

fn xml_error() -> XmlEvent {
    XmlEvent::Error { message: "Error at position 3: bad".to_string() }
}

fn malformed() -> XmlScanError {
    XmlScanError::Malformed { message: "Error at position 3: bad".to_string() }
}

fn start(name: &str) -> XmlEvent {
    XmlEvent::Start { name: name.to_string(), attributes: vec![] }
}

fn start_named(name: &str, attr: &str) -> XmlEvent {
    XmlEvent::Start { name: name.to_string(), attributes: vec![attr_pair("name", attr)] }
}

fn end(name: &str) -> XmlEvent {
    XmlEvent::End { name: name.to_string() }
}

fn text(t: &str) -> XmlEvent {
    XmlEvent::Text { text: Some(t.to_string()) }
}

fn button(name: &str, vkey: &str) -> XmlEvent {
    XmlEvent::Empty { name: "button".to_string(), attributes: vec![attr_pair("name", name), attr_pair("vkey", vkey)] }
}

fn ea3_config(model: &str) -> Vec<XmlEvent> {
    vec![
        XmlEvent::Other,
        start("ea3"),
        start("id"),
        start("pcbid"),
        text("0101"),
        end("pcbid"),
        end("id"),
        start("soft"),
        start("model"),
        text(model),
        end("model"),
        end("soft"),
        end("ea3"),
    ]
}

#[test]
fn entry_at_dotted_path() {
    let events = ea3_config("KFC");
    assert_eq!(entry_of_events(&events, "ea3.soft.model"), Ok("KFC".to_string()));
    assert_eq!(entry_of_events(&events, "ea3.id.pcbid"), Ok("0101".to_string()));
    assert_eq!(entry_of_events(&events, "ea3.soft.ext"), Ok(String::new()));
}

#[test]
fn entry_errors() {
    let mut events = ea3_config("KFC");
    events.insert(2, xml_error());
    assert_eq!(entry_of_events(&events, "ea3.soft.model"), Err(malformed()));
    let undecodable = vec![start("a"), XmlEvent::Text { text: None }];
    assert_eq!(entry_of_events(&undecodable, "a"), Err(XmlScanError::Undecodable));
    assert_eq!(entry_of_events(&undecodable, "b"), Ok(String::new()));
    // An error after the entry is never reached.
    let mut later = ea3_config("LDJ");
    later.push(xml_error());
    assert_eq!(entry_of_events(&later, "ea3.soft.model"), Ok("LDJ".to_string()));
}

#[test]
fn game_types_and_names() {
    assert_eq!(SpiceGameType::from("KFC"), SpiceGameType::SoundVortex);
    assert_eq!(SpiceGameType::from("LDJ"), SpiceGameType::IIDX);
    assert_eq!(SpiceGameType::from("L44"), SpiceGameType::Jubeat);
    assert_eq!(SpiceGameType::from("M32"), SpiceGameType::Unsupported);
    assert_eq!(SpiceGameType::from(""), SpiceGameType::Unsupported);
    assert_eq!(spice_config_game_name(&SpiceGameType::SoundVortex), "Sound Voltex");
    assert_eq!(spice_config_game_name(&SpiceGameType::IIDX), "Beatmania IIDX");
    assert_eq!(spice_config_game_name(&SpiceGameType::Jubeat), "Jubeat");
    assert_eq!(spice_config_game_name(&SpiceGameType::Unsupported), "Unsupported");
}

fn spicetools() -> Vec<XmlEvent> {
    vec![
        start("spicetools"),
        start_named("game", "Jubeat"),
        button("Service", "1"),
        end("game"),
        start_named("game", "Sound Voltex"),
        button("Service", "80"),
        button("Test", "81"),
        button("Coin Mech", "not a number"),
        button("P1 Keypad 1", "+49"),
        button("P1 Keypad 00", "99999999999"),
        button("P1 Keypad Insert Card", "45"),
        button("Unknown Button", "7"),
        XmlEvent::Empty { name: "light".to_string(), attributes: vec![attr_pair("name", "Test"), attr_pair("vkey", "5")] },
        end("game"),
        start_named("game", "Sound Voltex"),
        button("Test", "3"),
        end("game"),
        end("spicetools"),
    ]
}

#[test]
fn spice_bindings_of_the_game() {
    let keys = spice_key_bindings(&spicetools(), "Sound Voltex").unwrap();
    assert_eq!(keys.service_key, 80);
    assert_eq!(keys.test_key, 81);
    assert_eq!(keys.coin_key, 255);
    assert_eq!(keys.p1_keypad_1, 49);
    assert_eq!(keys.p1_keypad_00, 255);
    assert_eq!(keys.p1_keypad_insert_card, 45);
    assert_eq!(keys.p1_keypad_2, 0x62);
    assert_eq!(keys.p1_keypad_decimal, 0x6E);
}

#[test]
fn spice_bindings_default_when_game_absent() {
    let keys = spice_key_bindings(&spicetools(), "Beatmania IIDX").unwrap();
    assert_eq!((keys.coin_key, keys.test_key, keys.service_key), (0x33, 0x31, 0x32));
    assert_eq!(keys.p1_keypad_0, 0x60);
    assert_eq!(keys.p1_keypad_00, 0xD);
}

#[test]
fn spice_bindings_stop_at_the_game_end() {
    let mut events = spicetools();
    events.push(xml_error());
    assert!(spice_key_bindings(&events, "Sound Voltex").is_ok());
    assert_eq!(spice_key_bindings(&events, "Beatmania IIDX"), Err(malformed()));
}

#[test]
fn spice_instance_actions() {
    let game = SpiceGameInstance::from_events("C:\\game\\card0.txt".to_string(), &ea3_config("KFC"), &spicetools())
        .ok()
        .unwrap();
    assert_eq!(game.game_type(), SpiceGameType::SoundVortex);
    assert_eq!(game.add_coin(), None);
    assert_eq!(game.test(), Some(81));
    assert_eq!(game.service(), Some(80));
    assert_eq!(game.misc_keys(1), Some(49));
    assert_eq!(game.misc_keys(2), Some(0x62));
    assert_eq!(game.misc_keys(10), Some(0x60));
    assert_eq!(game.misc_keys(11), None);
    assert_eq!(game.misc_keys(12), Some(0x6E));
    assert_eq!(game.misc_keys(0), None);
    assert_eq!(game.misc_keys(13), None);
    let login = game.login("3500BD2AE3724E58");
    assert_eq!(login.card_file, "C:\\game\\card0.txt");
    assert_eq!(login.card_data, "3500BD2AE3724E58");
    assert!(!login.aimedb_replaceable);
    assert_eq!(login.key, Some(45));
}

#[test]
fn segatools_instance_actions() {
    let game = SegaToolsInstance::new("C:\\game\\DEVICE\\aime.txt".to_string());
    assert_eq!(game.add_coin(), Some(0x72));
    assert_eq!(game.test(), Some(0x70));
    assert_eq!(game.service(), Some(0x71));
    assert_eq!(game.misc_keys(1), None);
    let login = game.login("3500BD2AE3724E58");
    assert_eq!(login.card_file, "C:\\game\\DEVICE\\aime.txt");
    assert_eq!(login.card_data, "0003819260475912375896");
    assert!(login.aimedb_replaceable);
    assert_eq!(login.key, Some(0x0D));
}

#[test]
fn unbound_key_presses_nothing() {
    assert_eq!(virtual_key_for(255), None);
    assert_eq!(virtual_key_for(0x33), Some(0x33));
    assert_eq!(virtual_key_for(0x1_0041), Some(0x41));
    assert_eq!(virtual_key_for(-1), Some(0xffff));
}

#[test]
fn process_state() {
    assert!(process_running(true, 259));
    assert!(!process_running(true, 0));
    assert!(process_running(false, 0));
}

#[test]
fn aime_path_of_segatools_ini() {
    let ini = "[vfs]\r\namfs=amfs\r\n\r\n[aime]\r\nenable=1\r\naimePath=DEVICE\\aime.txt\r\n";
    let value = |s: &str| aime_path_value(s).map(|(_, v)| v);
    assert_eq!(aime_path_value(ini), Ok(("aimePath=DEVICE\\aime.txt".to_string(), "DEVICE\\aime.txt".to_string())));
    assert_eq!(value("aimePath=a=b\naimePath=c"), Ok("b".to_string()));
    assert_eq!(value("aimePath=last"), Ok("last".to_string()));
    assert_eq!(aime_path_value("aimePath=cr\r"), Ok(("aimePath=cr\r".to_string(), "cr\r".to_string())));
    assert_eq!(aime_path_value(" aimePath=x\n;aimePath=y\naimepath=z"), Err(AimePathError::NotFound));
    assert_eq!(aime_path_value(""), Err(AimePathError::NotFound));
}

#[test]
fn unconfigured_aime_path_is_rejected() {
    assert_eq!(
        aime_path_value("x\naimePath=\r\naimePath=later"),
        Err(AimePathError::Unconfigured { line: "aimePath=".to_string() })
    );
    assert_eq!(
        aime_path_value("aimePath=a="),
        Err(AimePathError::Unconfigured { line: "aimePath=a=".to_string() })
    );
}

const EA3_XML: &str = "<?xml version=\"1.0\"?>\n<ea3>\n  <id><pcbid>0101</pcbid></id>\n  <soft>\n    <model>  KFC  </model>\n  </soft>\n</ea3>\n";

const SPICE_XML: &str = "<?xml version=\"1.0\"?>\n<spicetools>\n  <game name=\"Jubeat\">\n    <button name=\"Service\" vkey=\"1\"/>\n  </game>\n  <game name=\"Sound Voltex\">\n    <!-- bindings -->\n    <button name=\"Service\" vkey=\"80\"/>\n    <button name=\"Test\" vkey=\"81\"/>\n    <button name=\"P1 Keypad Insert Card\" vkey=\"45\"/>\n  </game>\n  <game name=\"Sound Voltex\"><button name=\"Test\" vkey=\"3\"/></game>\n</spicetools>\n";

#[test]
fn entry_read_from_xml_text() {
    assert_eq!(xml_config_entry_str(EA3_XML, "ea3.soft.model"), "KFC");
    assert_eq!(xml_config_entry_str(EA3_XML, "ea3.id.pcbid"), "0101");
    assert_eq!(xml_config_entry_str(EA3_XML, "ea3.soft.spec"), "");
    assert_eq!(try_xml_config_entry_str(EA3_XML, "ea3.soft.model"), Ok("KFC".to_string()));
    match try_xml_config_entry_str("<a><b>x</c></a>", "a.b.c") {
        Err(XmlScanError::Malformed { message }) => assert!(message.starts_with("Error at position"), "{message}"),
        other => panic!("expected a reader error, got {other:?}"),
    }
    assert!(matches!(try_xml_config_entry_str("<a></b>", "a"), Err(XmlScanError::Malformed { .. })));
}

#[test]
fn attributes_and_self_closing_tags_read_from_xml_text() {
    let ea3 = "<ea3><soft><model>LDJ</model></soft></ea3>";
    let spice = "<s><game name='Beatmania IIDX'><x><button vkey='7' name='Test'/></x></game></s>";
    let game = SpiceGameInstance::new("c".to_string(), ea3, spice);
    assert_eq!(game.game_type(), SpiceGameType::IIDX);
    assert_eq!(game.test(), Some(7));
    let broken = "<s><game name='Beatmania IIDX'><button name='Test' vkey='7'></s>";
    assert!(matches!(SpiceGameInstance::try_new("c".to_string(), ea3, broken).err(), Some(XmlScanError::Malformed { .. })));
    assert!(SpiceGameInstance::try_new("c".to_string(), ea3, spice).is_ok());
}

#[test]
fn spice_instance_from_configuration_texts() {
    let game = SpiceGameInstance::new("card0.txt".to_string(), EA3_XML, SPICE_XML);
    assert_eq!(game.game_type(), SpiceGameType::SoundVortex);
    assert_eq!(game.service(), Some(80));
    assert_eq!(game.test(), Some(81));
    assert_eq!(game.add_coin(), Some(0x33));
    assert_eq!(game.login("01").key, Some(45));
}

#[test]
fn unknown_model_is_unsupported_with_default_keys() {
    let ea3 = "<ea3><soft><model>M32</model></soft></ea3>";
    let game = SpiceGameInstance::new("card0.txt".to_string(), ea3, SPICE_XML);
    assert_eq!(game.game_type(), SpiceGameType::Unsupported);
    assert_eq!((game.add_coin(), game.test(), game.service()), (Some(0x33), Some(0x31), Some(0x32)));
    let missing = SpiceGameInstance::new("card0.txt".to_string(), "<ea3/>", SPICE_XML);
    assert_eq!(missing.game_type(), SpiceGameType::Unsupported);
}

#[test]
fn buttons_outside_the_game_block_change_nothing() {
    let base = spice_key_bindings(&spicetools(), "Sound Voltex").unwrap();
    // Before the block, inside another game's block.
    let mut before = spicetools();
    before.insert(2, button("Coin Mech", "11"));
    assert_eq!(spice_key_bindings(&before, "Sound Voltex").unwrap(), base);
    // After the block ends.
    let mut after = spicetools();
    after.insert(14, button("Coin Mech", "12"));
    assert_eq!(spice_key_bindings(&after, "Sound Voltex").unwrap(), base);
    // An unknown button name inside the block.
    let mut unknown = spicetools();
    unknown.insert(6, button("P2 Keypad 1", "13"));
    assert_eq!(spice_key_bindings(&unknown, "Sound Voltex").unwrap(), base);
}

#[test]
fn attributes_are_found_as_the_reader_finds_them() {
    let attrs = vec![attr_pair("vkey", "1"), attr_pair("name", "Test"), attr_pair("name", "Other")];
    assert_eq!(attribute_value(&attrs, "name").as_deref(), Some("Test"));
    assert_eq!(attribute_value(&attrs, "vkey").as_deref(), Some("1"));
    assert_eq!(attribute_value(&attrs, "key"), None);
    let broken = vec![attr_pair("vkey", "1"), None, attr_pair("name", "Test")];
    assert_eq!(attribute_value(&broken, "vkey").as_deref(), Some("1"));
    assert_eq!(attribute_value(&broken, "name"), None);
}

#[test]
fn many_buttons_outside_the_block_change_nothing() {
    let base = spice_key_bindings(&spicetools(), "Sound Voltex").unwrap();
    let mut noisy = spicetools();
    noisy.insert(17, button("Test", "21"));
    noisy.insert(14, button("Service", "22"));
    noisy.insert(11, button("P9 Unknown", "23"));
    noisy.insert(6, XmlEvent::Empty { name: "button".to_string(), attributes: vec![] });
    noisy.insert(3, button("Test", "24"));
    noisy.insert(1, button("Coin Mech", "25"));
    assert_eq!(spice_key_bindings(&noisy, "Sound Voltex").unwrap(), base);
}
