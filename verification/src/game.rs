//! The games that the bridge drives: which key each action presses, what a
//! card login writes, and the key bindings read from the emulators'
//! configuration files. Pressing keys, writing files and watching the game's
//! process are the caller's.

use vstd::prelude::*;
use crate::card::{access_code_008, idm_value, get_008_accesscode, lemma_int_decimal_parses_back};
use crate::numeric::{int_decimal, parse_i32_decimal, parse_decimal_i32, signed_value};
use crate::text::str_eq;
use crate::xml::{attr_value, attribute_value, entry_of_events, entry_scan, read_xml_events, xml_reader_events, XmlEvent, XmlScanError};

verus! {

/// The key code that marks an action as unbound.
pub const UNBOUND_KEY: i32 = 255;

/// The Windows exit code of a process that has not exited yet.
pub const STILL_ACTIVE: u32 = 259;

/// The Windows virtual key of the Enter key.
pub const VK_RETURN: i32 = 0x0D;

/// The virtual key that pressing a configured key sends: none for the
/// unbound key 255, else the key's low sixteen bits.
pub open spec fn key_press(key: i32) -> Option<u16> {
    if key == UNBOUND_KEY {
        None
    } else {
        Some(key as u16)
    }
}

/// The virtual key to press for a configured key, or `None` when the key is
/// unbound and nothing is to be pressed.
pub fn virtual_key_for(key: i32) -> (r: Option<u16>)
    ensures
        r == key_press(key),
{
    if key == UNBOUND_KEY {
        None
    } else {
        Some(key as u16)
    }
}

/// Whether a game's process still runs, given whether its exit code could
/// be read and what it was. Where the exit code cannot be read the process
/// counts as running.
pub fn process_running(exit_code_read: bool, exit_code: u32) -> (r: bool)
    ensures
        r == !(exit_code_read && exit_code != STILL_ACTIVE),
{
    !(exit_code_read && exit_code != STILL_ACTIVE)
}

/// What logging a card in takes: the card data to write to the game's card
/// file, then the key to press.
pub struct CardLogin {
    /// The file that the game reads the card from.
    pub card_file: String,
    /// What to write to it.
    pub card_data: String,
    /// Whether the card data is a 0008 access code that an AiMeDB access
    /// code may replace, where the user asks for one.
    pub aimedb_replaceable: bool,
    /// The key that makes the game read the card, if one is bound.
    pub key: Option<u16>,
}

/// A running game that the bridge drives. Each method says which virtual
/// key, if any, the action presses.
pub trait GameInstance {
    /// What logging in the card with the given IDm (hexadecimal text) takes.
    fn login(&self, idm: &str) -> CardLogin;

    /// The key that inserts a coin.
    fn add_coin(&self) -> Option<u16>;

    /// The key that presses the test button.
    fn test(&self) -> Option<u16>;

    /// The key that presses the service button.
    fn service(&self) -> Option<u16>;

    /// The key for a keypad button (1 to 9; 10 is 0, 11 is 00, 12 the
    /// decimal point).
    fn misc_keys(&self, key: i32) -> Option<u16>;
}

/// The games that spice runs and that this bridge knows.
#[derive(PartialEq, Eq, Structural, Clone, Copy, Debug)]
pub enum SpiceGameType {
    Unsupported,
    SoundVortex,
    IIDX,
    Jubeat,
}

/// The game that an `ea3.soft.model` code stands for.
pub open spec fn game_of_model(model: Seq<char>) -> SpiceGameType {
    if model == "KFC"@ {
        SpiceGameType::SoundVortex
    } else if model == "LDJ"@ {
        SpiceGameType::IIDX
    } else if model == "L44"@ {
        SpiceGameType::Jubeat
    } else {
        SpiceGameType::Unsupported
    }
}

impl From<&str> for SpiceGameType {
    fn from(value: &str) -> (r: SpiceGameType) {
        if str_eq(value, "KFC") {
            SpiceGameType::SoundVortex
        } else if str_eq(value, "LDJ") {
            SpiceGameType::IIDX
        } else if str_eq(value, "L44") {
            SpiceGameType::Jubeat
        } else {
            SpiceGameType::Unsupported
        }
    }
}

impl vstd::std_specs::convert::FromSpecImpl<&str> for SpiceGameType {
    open spec fn obeys_from_spec() -> bool {
        true
    }

    open spec fn from_spec(v: &str) -> SpiceGameType {
        game_of_model(v@)
    }
}

/// The name under which spicetools.xml files the settings of a game.
pub open spec fn game_name(game: SpiceGameType) -> Seq<char> {
    match game {
        SpiceGameType::SoundVortex => "Sound Voltex"@,
        SpiceGameType::IIDX => "Beatmania IIDX"@,
        SpiceGameType::Jubeat => "Jubeat"@,
        SpiceGameType::Unsupported => "Unsupported"@,
    }
}

/// The name under which spicetools.xml files the settings of a game.
pub fn spice_config_game_name(value: &SpiceGameType) -> (r: &'static str)
    ensures
        r@ == game_name(*value),
{
    match value {
        SpiceGameType::SoundVortex => "Sound Voltex",
        SpiceGameType::IIDX => "Beatmania IIDX",
        SpiceGameType::Jubeat => "Jubeat",
        SpiceGameType::Unsupported => "Unsupported",
    }
}

/// The keys that spice presses for the actions of player one.
#[derive(PartialEq, Eq, Structural, Clone, Copy, Debug)]
pub struct SpiceKeys {
    pub coin_key: i32,
    pub test_key: i32,
    pub service_key: i32,
    pub p1_keypad_0: i32,
    pub p1_keypad_1: i32,
    pub p1_keypad_2: i32,
    pub p1_keypad_3: i32,
    pub p1_keypad_4: i32,
    pub p1_keypad_5: i32,
    pub p1_keypad_6: i32,
    pub p1_keypad_7: i32,
    pub p1_keypad_8: i32,
    pub p1_keypad_9: i32,
    pub p1_keypad_00: i32,
    pub p1_keypad_decimal: i32,
    pub p1_keypad_insert_card: i32,
}

/// The bindings that hold until spicetools.xml says otherwise: spice's own
/// keypad defaults, and 1, 2 and 3 for test, service and coin.
pub open spec fn default_spice_keys() -> SpiceKeys {
    SpiceKeys {
        coin_key: 0x33,
        test_key: 0x31,
        service_key: 0x32,
        p1_keypad_0: 0x60,
        p1_keypad_1: 0x61,
        p1_keypad_2: 0x62,
        p1_keypad_3: 0x63,
        p1_keypad_4: 0x64,
        p1_keypad_5: 0x65,
        p1_keypad_6: 0x66,
        p1_keypad_7: 0x67,
        p1_keypad_8: 0x68,
        p1_keypad_9: 0x69,
        p1_keypad_00: 0xD,
        p1_keypad_decimal: 0x6E,
        p1_keypad_insert_card: 0x6E,
    }
}

/// The key that a `vkey` attribute gives: its decimal `i32` value, else the
/// unbound key.
pub open spec fn vkey_value(vkey: Option<Seq<char>>) -> i32 {
    match vkey {
        Some(v) => match parse_i32_decimal(v) {
            Some(k) => k,
            None => UNBOUND_KEY,
        },
        None => UNBOUND_KEY,
    }
}

/// The bindings after spicetools.xml binds the button named `button` to
/// `key`; a button of another name changes nothing.
pub open spec fn bind_button(keys: SpiceKeys, button: Seq<char>, key: i32) -> SpiceKeys {
    if button == "Service"@ {
        SpiceKeys { service_key: key, ..keys }
    } else if button == "Test"@ {
        SpiceKeys { test_key: key, ..keys }
    } else if button == "Coin Mech"@ {
        SpiceKeys { coin_key: key, ..keys }
    } else if button == "P1 Keypad 0"@ {
        SpiceKeys { p1_keypad_0: key, ..keys }
    } else if button == "P1 Keypad 1"@ {
        SpiceKeys { p1_keypad_1: key, ..keys }
    } else if button == "P1 Keypad 2"@ {
        SpiceKeys { p1_keypad_2: key, ..keys }
    } else if button == "P1 Keypad 3"@ {
        SpiceKeys { p1_keypad_3: key, ..keys }
    } else if button == "P1 Keypad 4"@ {
        SpiceKeys { p1_keypad_4: key, ..keys }
    } else if button == "P1 Keypad 5"@ {
        SpiceKeys { p1_keypad_5: key, ..keys }
    } else if button == "P1 Keypad 6"@ {
        SpiceKeys { p1_keypad_6: key, ..keys }
    } else if button == "P1 Keypad 7"@ {
        SpiceKeys { p1_keypad_7: key, ..keys }
    } else if button == "P1 Keypad 8"@ {
        SpiceKeys { p1_keypad_8: key, ..keys }
    } else if button == "P1 Keypad 9"@ {
        SpiceKeys { p1_keypad_9: key, ..keys }
    } else if button == "P1 Keypad 00"@ {
        SpiceKeys { p1_keypad_00: key, ..keys }
    } else if button == "P1 Keypad Decimal"@ {
        SpiceKeys { p1_keypad_decimal: key, ..keys }
    } else if button == "P1 Keypad Insert Card"@ {
        SpiceKeys { p1_keypad_insert_card: key, ..keys }
    } else {
        keys
    }
}

/// Whether an event opens the `<game>` element of the game named `game`.
pub open spec fn opens_game(e: XmlEvent, game: Seq<char>) -> bool {
    match e {
        XmlEvent::Start { name, attributes } => name@ == "game"@ && attr_value(attributes@, "name"@)
            == Some(game),
        _ => false,
    }
}

/// The names of the buttons that spicetools.xml can bind for this bridge.
pub open spec fn known_button(button: Seq<char>) -> bool {
    ||| button == "Service"@
    ||| button == "Test"@
    ||| button == "Coin Mech"@
    ||| button == "P1 Keypad 0"@
    ||| button == "P1 Keypad 1"@
    ||| button == "P1 Keypad 2"@
    ||| button == "P1 Keypad 3"@
    ||| button == "P1 Keypad 4"@
    ||| button == "P1 Keypad 5"@
    ||| button == "P1 Keypad 6"@
    ||| button == "P1 Keypad 7"@
    ||| button == "P1 Keypad 8"@
    ||| button == "P1 Keypad 9"@
    ||| button == "P1 Keypad 00"@
    ||| button == "P1 Keypad Decimal"@
    ||| button == "P1 Keypad Insert Card"@
}

/// What reading one event of spicetools.xml does.
pub enum SpiceStep {
    /// Reading fails.
    Fail(XmlScanError),
    /// Reading ends with these bindings.
    Done(SpiceKeys),
    /// Reading goes on, inside the game's block or not, with these bindings.
    Next(bool, SpiceKeys),
}

/// Reading one event of spicetools.xml for the game named `game`: an error
/// fails; the first end of a `<game>` element once the game's block has
/// begun ends reading; the opening of the game's block begins it; inside
/// it, each `<button>` binds its `name` to its `vkey`.
pub open spec fn spice_step(e: XmlEvent, game: Seq<char>, in_game: bool, keys: SpiceKeys) -> SpiceStep {
    match e {
        XmlEvent::Error { message } => SpiceStep::Fail(XmlScanError::Malformed { message }),
        XmlEvent::Start { .. } => SpiceStep::Next(in_game || opens_game(e, game), keys),
        XmlEvent::End { name } => if name@ == "game"@ && in_game {
            SpiceStep::Done(keys)
        } else {
            SpiceStep::Next(in_game, keys)
        },
        XmlEvent::Empty { name, attributes } => if in_game && name@ == "button"@ && attr_value(
            attributes@,
            "name"@,
        ) is Some {
            SpiceStep::Next(
                in_game,
                bind_button(keys, attr_value(attributes@, "name"@)->0, vkey_value(attr_value(attributes@, "vkey"@))),
            )
        } else {
            SpiceStep::Next(in_game, keys)
        },
        _ => SpiceStep::Next(in_game, keys),
    }
}

/// The bindings that spicetools.xml gives the game named `game`, read from
/// the events that follow. `in_game` says whether the game's `<game>`
/// element has begun; its first end closes the reading. Each `<button>`
/// inside binds its `name` to its `vkey`.
pub open spec fn spice_scan(events: Seq<XmlEvent>, game: Seq<char>, in_game: bool, keys: SpiceKeys) -> Result<
    SpiceKeys,
    XmlScanError,
>
    decreases events.len(),
{
    if events.len() == 0 {
        Ok(keys)
    } else {
        match spice_step(events[0], game, in_game, keys) {
            SpiceStep::Fail(e) => Err(e),
            SpiceStep::Done(k) => Ok(k),
            SpiceStep::Next(g, k) => spice_scan(events.drop_first(), game, g, k),
        }
    }
}

/// Whether reading the events ends (by the end of the game's block or by an
/// error) before they run out, so that what follows them is never read.
pub open spec fn spice_scan_ends(events: Seq<XmlEvent>, game: Seq<char>, in_game: bool, keys: SpiceKeys) -> bool
    decreases events.len(),
{
    if events.len() == 0 {
        false
    } else {
        match spice_step(events[0], game, in_game, keys) {
            SpiceStep::Next(g, k) => spice_scan_ends(events.drop_first(), game, g, k),
            _ => true,
        }
    }
}

/// Whatever follows the end of the game's block in spicetools.xml (other
/// games' blocks, a second block of the same game, anything) changes no
/// binding.
pub proof fn lemma_spice_scan_ignores_after_end(
    events: Seq<XmlEvent>,
    tail: Seq<XmlEvent>,
    game: Seq<char>,
    in_game: bool,
    keys: SpiceKeys,
)
    requires
        spice_scan_ends(events, game, in_game, keys),
    ensures
        spice_scan(events + tail, game, in_game, keys) == spice_scan(events, game, in_game, keys),
    decreases events.len(),
{
    let all = events + tail;
    assert(all[0] == events[0]);
    assert(all.drop_first() =~= events.drop_first() + tail);
    match spice_step(events[0], game, in_game, keys) {
        SpiceStep::Next(g, k) => {
            lemma_spice_scan_ignores_after_end(events.drop_first(), tail, game, g, k);
        },
        _ => {},
    }
}

/// Whether an event binds no key, wherever it stands: a self-closing tag
/// other than a `<button>` whose `name` this bridge binds.
pub open spec fn binds_nothing(e: XmlEvent) -> bool {
    match e {
        XmlEvent::Empty { name, attributes } => !(name@ == "button"@ && attr_value(attributes@, "name"@) is Some
            && known_button(attr_value(attributes@, "name"@)->0)),
        _ => false,
    }
}

/// The events without those that bind nothing.
pub open spec fn without_inert(events: Seq<XmlEvent>) -> Seq<XmlEvent>
    decreases events.len(),
{
    if events.len() == 0 {
        events
    } else if binds_nothing(events[0]) {
        without_inert(events.drop_first())
    } else {
        seq![events[0]] + without_inert(events.drop_first())
    }
}

/// The events without any self-closing tag.
pub open spec fn without_empties(events: Seq<XmlEvent>) -> Seq<XmlEvent>
    decreases events.len(),
{
    if events.len() == 0 {
        events
    } else if events[0] is Empty {
        without_empties(events.drop_first())
    } else {
        seq![events[0]] + without_empties(events.drop_first())
    }
}

/// Self-closing tags that bind nothing (`<button>`s whose names this bridge
/// does not bind, and any other self-closing tag), however many and
/// wherever they stand in spicetools.xml, change no binding.
pub proof fn lemma_spice_scan_ignores_inert(events: Seq<XmlEvent>, game: Seq<char>, in_game: bool, keys: SpiceKeys)
    ensures
        spice_scan(without_inert(events), game, in_game, keys) == spice_scan(events, game, in_game, keys),
    decreases events.len(),
{
    if events.len() > 0 {
        let e = events[0];
        let rest = events.drop_first();
        if binds_nothing(e) {
            assert(spice_step(e, game, in_game, keys) == SpiceStep::Next(in_game, keys));
            lemma_spice_scan_ignores_inert(rest, game, in_game, keys);
        } else {
            let kept = seq![e] + without_inert(rest);
            assert(kept[0] == e);
            assert(kept.drop_first() =~= without_inert(rest));
            match spice_step(e, game, in_game, keys) {
                SpiceStep::Next(g, k) => {
                    lemma_spice_scan_ignores_inert(rest, game, g, k);
                },
                _ => {},
            }
        }
    }
}

/// Self-closing tags that come before the game's block begins (in other
/// games' blocks, say), however many, change no binding.
pub proof fn lemma_spice_scan_ignores_before_block(
    prefix: Seq<XmlEvent>,
    rest: Seq<XmlEvent>,
    game: Seq<char>,
    keys: SpiceKeys,
)
    requires
        forall|i: int| 0 <= i < prefix.len() ==> !opens_game(#[trigger] prefix[i], game),
    ensures
        spice_scan(without_empties(prefix) + rest, game, false, keys) == spice_scan(prefix + rest, game, false, keys),
    decreases prefix.len(),
{
    if prefix.len() == 0 {
        assert(without_empties(prefix) + rest =~= prefix + rest);
    } else {
        let e = prefix[0];
        let tail = prefix.drop_first();
        assert forall|i: int| 0 <= i < tail.len() implies !opens_game(#[trigger] tail[i], game) by {
            assert(tail[i] == prefix[i + 1]);
        }
        let all = prefix + rest;
        assert(all[0] == e);
        assert(all.drop_first() =~= tail + rest);
        assert(!opens_game(e, game));
        if e is Empty {
            assert(spice_step(e, game, false, keys) == SpiceStep::Next(false, keys));
            lemma_spice_scan_ignores_before_block(tail, rest, game, keys);
        } else {
            let kept = seq![e] + without_empties(tail) + rest;
            assert(without_empties(prefix) + rest =~= kept);
            assert(kept[0] == e);
            assert(kept.drop_first() =~= without_empties(tail) + rest);
            match spice_step(e, game, false, keys) {
                SpiceStep::Next(g, k) => {
                    assert(!g);
                    lemma_spice_scan_ignores_before_block(tail, rest, game, k);
                },
                _ => {},
            }
        }
    }
}

fn default_keys() -> (k: SpiceKeys)
    ensures
        k == default_spice_keys(),
{
    SpiceKeys {
        coin_key: 0x33,
        test_key: 0x31,
        service_key: 0x32,
        p1_keypad_0: 0x60,
        p1_keypad_1: 0x61,
        p1_keypad_2: 0x62,
        p1_keypad_3: 0x63,
        p1_keypad_4: 0x64,
        p1_keypad_5: 0x65,
        p1_keypad_6: 0x66,
        p1_keypad_7: 0x67,
        p1_keypad_8: 0x68,
        p1_keypad_9: 0x69,
        p1_keypad_00: 0xD,
        p1_keypad_decimal: 0x6E,
        p1_keypad_insert_card: 0x6E,
    }
}

fn bind_button_exec(keys: &mut SpiceKeys, button: &str, key: i32)
    ensures
        *final(keys) == bind_button(*old(keys), button@, key),
{
    if str_eq(button, "Service") {
        keys.service_key = key;
    } else if str_eq(button, "Test") {
        keys.test_key = key;
    } else if str_eq(button, "Coin Mech") {
        keys.coin_key = key;
    } else if str_eq(button, "P1 Keypad 0") {
        keys.p1_keypad_0 = key;
    } else if str_eq(button, "P1 Keypad 1") {
        keys.p1_keypad_1 = key;
    } else if str_eq(button, "P1 Keypad 2") {
        keys.p1_keypad_2 = key;
    } else if str_eq(button, "P1 Keypad 3") {
        keys.p1_keypad_3 = key;
    } else if str_eq(button, "P1 Keypad 4") {
        keys.p1_keypad_4 = key;
    } else if str_eq(button, "P1 Keypad 5") {
        keys.p1_keypad_5 = key;
    } else if str_eq(button, "P1 Keypad 6") {
        keys.p1_keypad_6 = key;
    } else if str_eq(button, "P1 Keypad 7") {
        keys.p1_keypad_7 = key;
    } else if str_eq(button, "P1 Keypad 8") {
        keys.p1_keypad_8 = key;
    } else if str_eq(button, "P1 Keypad 9") {
        keys.p1_keypad_9 = key;
    } else if str_eq(button, "P1 Keypad 00") {
        keys.p1_keypad_00 = key;
    } else if str_eq(button, "P1 Keypad Decimal") {
        keys.p1_keypad_decimal = key;
    } else if str_eq(button, "P1 Keypad Insert Card") {
        keys.p1_keypad_insert_card = key;
    }
}

fn vkey_value_exec(vkey: &Option<String>) -> (r: i32)
    ensures
        r == vkey_value(match vkey {
            Some(v) => Some(v@),
            None => None,
        }),
{
    match vkey {
        Some(v) => match parse_decimal_i32(v.as_str()) {
            Some(k) => k,
            None => UNBOUND_KEY,
        },
        None => UNBOUND_KEY,
    }
}

/// The bindings that spicetools.xml, read as events, gives the game named
/// `game`, starting from the defaults.
pub fn spice_key_bindings(events: &Vec<XmlEvent>, game: &str) -> (r: Result<SpiceKeys, XmlScanError>)
    ensures
        r == spice_scan(events@, game@, false, default_spice_keys()),
{
    let mut keys = default_keys();
    let mut in_game: bool = false;
    let mut i: usize = 0;
    assert(events@.skip(0) =~= events@);
    while i < events.len()
        invariant
            i <= events@.len(),
            spice_scan(events@, game@, false, default_spice_keys()) == spice_scan(
                events@.skip(i as int),
                game@,
                in_game,
                keys,
            ),
        decreases events.len() - i,
    {
        let ghost rest = events@.skip(i as int);
        assert(rest[0] == events@[i as int]);
        assert(rest.drop_first() =~= events@.skip(i + 1));
        match &events[i] {
            XmlEvent::Error { message } => {
                return Err(XmlScanError::Malformed { message: message.clone() });
            },
            XmlEvent::Start { name, attributes } => {
                if str_eq(name.as_str(), "game") {
                    match attribute_value(attributes, "name") {
                        Some(a) => {
                            if str_eq(a.as_str(), game) {
                                in_game = true;
                            }
                        },
                        None => {},
                    }
                }
            },
            XmlEvent::End { name } => {
                if str_eq(name.as_str(), "game") && in_game {
                    return Ok(keys);
                }
            },
            XmlEvent::Empty { name, attributes } => {
                if in_game && str_eq(name.as_str(), "button") {
                    let vkey = attribute_value(attributes, "vkey");
                    match attribute_value(attributes, "name") {
                        Some(button) => {
                            let key = vkey_value_exec(&vkey);
                            bind_button_exec(&mut keys, button.as_str(), key);
                        },
                        None => {},
                    }
                }
            },
            _ => {},
        }
        i = i + 1;
    }
    Ok(keys)
}

/// The key that keypad button `button` presses (1 to 9; 10 is 0, 11 is
/// 00, 12 the decimal point); any other number is unbound.
pub open spec fn keypad_key(keys: SpiceKeys, button: i32) -> i32 {
    if button == 1 {
        keys.p1_keypad_1
    } else if button == 2 {
        keys.p1_keypad_2
    } else if button == 3 {
        keys.p1_keypad_3
    } else if button == 4 {
        keys.p1_keypad_4
    } else if button == 5 {
        keys.p1_keypad_5
    } else if button == 6 {
        keys.p1_keypad_6
    } else if button == 7 {
        keys.p1_keypad_7
    } else if button == 8 {
        keys.p1_keypad_8
    } else if button == 9 {
        keys.p1_keypad_9
    } else if button == 10 {
        keys.p1_keypad_0
    } else if button == 11 {
        keys.p1_keypad_00
    } else if button == 12 {
        keys.p1_keypad_decimal
    } else {
        UNBOUND_KEY
    }
}

/// A game run by spice: the card is the IDm written to card0.txt, and the
/// keys come from spicetools.xml.
pub struct SpiceGameInstance {
    card_file: String,
    game_type: SpiceGameType,
    keys: SpiceKeys,
}

impl SpiceGameInstance {
    /// The card file.
    pub closed spec fn card_file_view(&self) -> Seq<char> {
        self.card_file@
    }

    /// The game.
    pub closed spec fn game(&self) -> SpiceGameType {
        self.game_type
    }

    /// The key bindings.
    pub closed spec fn bindings(&self) -> SpiceKeys {
        self.keys
    }

    /// The game of a spice installation, from the events of its
    /// ea3-config.xml and of spicetools.xml: the game is the one that the
    /// `ea3.soft.model` entry names, and its key bindings are those that
    /// spicetools.xml gives that game; or the error that ends reading one of
    /// the files, the ea3 configuration first.
    pub fn from_events(card_file: String, ea3_events: &Vec<XmlEvent>, spice_events: &Vec<XmlEvent>) -> (r: Result<
        SpiceGameInstance,
        XmlScanError,
    >)
        ensures
            match spice_setup(ea3_events@, spice_events@) {
                Ok((game, keys)) => r matches Ok(g) && g.card_file_view() == card_file@ && g.game() == game
                    && g.bindings() == keys,
                Err(e) => r == Err::<SpiceGameInstance, XmlScanError>(e),
            },
    {
        let model = match entry_of_events(ea3_events, "ea3.soft.model") {
            Ok(m) => m,
            Err(e) => {
                return Err(e);
            },
        };
        let game_type = SpiceGameType::from(model.as_str());
        let name = spice_config_game_name(&game_type);
        match spice_key_bindings(spice_events, name) {
            Ok(keys) => Ok(SpiceGameInstance { card_file, game_type, keys }),
            Err(e) => Err(e),
        }
    }

    /// The game of a spice installation whose card file is `card_file`, from
    /// the texts of its ea3-config.xml and of spicetools.xml: the game that
    /// the `ea3.soft.model` entry names (`Unsupported` for a model this
    /// bridge does not know, or none), with the key bindings that
    /// spicetools.xml gives that game, starting from the defaults. Both files
    /// must read without an error as far as they are read.
    pub fn new(card_file: String, ea3_config: &str, spice_config: &str) -> (g: SpiceGameInstance)
        requires
            spice_setup(xml_reader_events(ea3_config@), xml_reader_events(spice_config@)) is Ok,
        ensures
            g.card_file_view() == card_file@,
            (g.game(), g.bindings()) == spice_setup(
                xml_reader_events(ea3_config@),
                xml_reader_events(spice_config@),
            )->Ok_0,
    {
        let ea3_events = read_xml_events(ea3_config);
        let spice_events = read_xml_events(spice_config);
        match SpiceGameInstance::from_events(card_file, &ea3_events, &spice_events) {
            Ok(g) => g,
            Err(_) => SpiceGameInstance {
                card_file: String::new(),
                game_type: SpiceGameType::Unsupported,
                keys: default_keys(),
            },
        }
    }

    /// The game of a spice installation, as `new` gives it, or the error that
    /// ends reading one of its configuration files, the ea3 configuration
    /// first: the reader's error, or an `ea3.soft.model` text that does not
    /// decode.
    pub fn try_new(card_file: String, ea3_config: &str, spice_config: &str) -> (r: Result<
        SpiceGameInstance,
        XmlScanError,
    >)
        ensures
            match spice_setup(xml_reader_events(ea3_config@), xml_reader_events(spice_config@)) {
                Ok((game, keys)) => r matches Ok(g) && g.card_file_view() == card_file@ && g.game() == game
                    && g.bindings() == keys,
                Err(e) => r == Err::<SpiceGameInstance, XmlScanError>(e),
            },
    {
        let ea3_events = read_xml_events(ea3_config);
        let spice_events = read_xml_events(spice_config);
        match SpiceGameInstance::from_events(card_file.clone(), &ea3_events, &spice_events) {
            Ok(_) => Ok(SpiceGameInstance::new(card_file, ea3_config, spice_config)),
            Err(e) => Err(e),
        }
    }

    /// The game.
    pub fn game_type(&self) -> (g: SpiceGameType)
        ensures
            g == self.game(),
    {
        self.game_type
    }
}

/// The game that ea3-config.xml names, and the key bindings that
/// spicetools.xml gives it, from the two files' events; or the error that
/// ends reading one of them, the ea3 configuration first.
pub open spec fn spice_setup(ea3_events: Seq<XmlEvent>, spice_events: Seq<XmlEvent>) -> Result<
    (SpiceGameType, SpiceKeys),
    XmlScanError,
> {
    match entry_scan(ea3_events, "ea3.soft.model"@, Seq::empty()) {
        Err(e) => Err(e),
        Ok(model) => {
            let game = game_of_model(model);
            match spice_scan(spice_events, game_name(game), false, default_spice_keys()) {
                Ok(keys) => Ok((game, keys)),
                Err(e) => Err(e),
            }
        },
    }
}

impl GameInstance for SpiceGameInstance {
    fn login(&self, idm: &str) -> (r: CardLogin)
        ensures
            r.card_file@ == self.card_file_view(),
            r.card_data@ == idm@,
            !r.aimedb_replaceable,
            r.key == key_press(self.bindings().p1_keypad_insert_card),
    {
        CardLogin {
            card_file: self.card_file.clone(),
            card_data: idm.to_owned(),
            aimedb_replaceable: false,
            key: virtual_key_for(self.keys.p1_keypad_insert_card),
        }
    }

    fn add_coin(&self) -> (r: Option<u16>)
        ensures
            r == key_press(self.bindings().coin_key),
    {
        virtual_key_for(self.keys.coin_key)
    }

    fn test(&self) -> (r: Option<u16>)
        ensures
            r == key_press(self.bindings().test_key),
    {
        virtual_key_for(self.keys.test_key)
    }

    fn service(&self) -> (r: Option<u16>)
        ensures
            r == key_press(self.bindings().service_key),
    {
        virtual_key_for(self.keys.service_key)
    }

    fn misc_keys(&self, key: i32) -> (r: Option<u16>)
        ensures
            r == key_press(keypad_key(self.bindings(), key)),
    {
        let k = &self.keys;
        let bound: i32 = match key {
            1 => k.p1_keypad_1,
            2 => k.p1_keypad_2,
            3 => k.p1_keypad_3,
            4 => k.p1_keypad_4,
            5 => k.p1_keypad_5,
            6 => k.p1_keypad_6,
            7 => k.p1_keypad_7,
            8 => k.p1_keypad_8,
            9 => k.p1_keypad_9,
            10 => k.p1_keypad_0,
            11 => k.p1_keypad_00,
            12 => k.p1_keypad_decimal,
            _ => UNBOUND_KEY,
        };
        virtual_key_for(bound)
    }
}

/// A game run by segatools: the card is the 0008 access code written to the
/// file that segatools.ini names as `aimePath`; the keys are F1 to F3.
pub struct SegaToolsInstance {
    card_file: String,
    coin_key: i32,
    test_key: i32,
    service_key: i32,
}

impl SegaToolsInstance {
    /// The card file.
    pub closed spec fn card_file_view(&self) -> Seq<char> {
        self.card_file@
    }

    /// The coin, test and service keys.
    pub closed spec fn action_keys(&self) -> (i32, i32, i32) {
        (self.coin_key, self.test_key, self.service_key)
    }

    /// The game whose card file is `card_file`, with the default keys:
    /// F3 for coins, F1 for test and F2 for service.
    pub fn new(card_file: String) -> (r: SegaToolsInstance)
        ensures
            r.card_file_view() == card_file@,
            r.action_keys() == (0x72i32, 0x70i32, 0x71i32),
    {
        SegaToolsInstance { card_file, coin_key: 0x72, test_key: 0x70, service_key: 0x71 }
    }
}

impl GameInstance for SegaToolsInstance {
    fn login(&self, idm: &str) -> (r: CardLogin)
        ensures
            r.card_file@ == self.card_file_view(),
            r.card_data@ == access_code_008(idm_value(idm@) as int),
            r.aimedb_replaceable,
            r.key == key_press(VK_RETURN),
    {
        CardLogin {
            card_file: self.card_file.clone(),
            card_data: get_008_accesscode(idm),
            aimedb_replaceable: true,
            key: virtual_key_for(VK_RETURN),
        }
    }

    fn add_coin(&self) -> (r: Option<u16>)
        ensures
            r == key_press(self.action_keys().0),
    {
        virtual_key_for(self.coin_key)
    }

    fn test(&self) -> (r: Option<u16>)
        ensures
            r == key_press(self.action_keys().1),
    {
        virtual_key_for(self.test_key)
    }

    fn service(&self) -> (r: Option<u16>)
        ensures
            r == key_press(self.action_keys().2),
    {
        virtual_key_for(self.service_key)
    }

    fn misc_keys(&self, key: i32) -> (r: Option<u16>)
        ensures
            r is None,
    {
        None
    }
}

/// A line without the carriage return of a CRLF line ending.
pub open spec fn strip_cr(line: Seq<char>) -> Seq<char> {
    if line.len() > 0 && line.last() == '\r' {
        line.drop_last()
    } else {
        line
    }
}

/// The finished lines of a text and the unfinished last one, as `str::lines`
/// splits it: at each `\n`, dropping a `\r` just before it.
pub open spec fn lines_split(s: Seq<char>) -> (Seq<Seq<char>>, Seq<char>)
    decreases s.len(),
{
    if s.len() == 0 {
        (seq![], seq![])
    } else {
        let (done, cur) = lines_split(s.drop_last());
        if s.last() == '\n' {
            (done.push(strip_cr(cur)), seq![])
        } else {
            (done, cur.push(s.last()))
        }
    }
}

/// The lines of a text, as `str::lines` yields them.
pub open spec fn text_lines(s: Seq<char>) -> Seq<Seq<char>> {
    let (done, cur) = lines_split(s);
    if cur.len() > 0 {
        done.push(cur)
    } else {
        done
    }
}

/// What follows the last occurrence of `c` in a line; the whole line where
/// `c` does not occur (the last piece that splitting at `c` gives).
pub open spec fn after_last(line: Seq<char>, c: char) -> Seq<char>
    decreases line.len(),
{
    if line.len() == 0 {
        line
    } else if line.last() == c {
        seq![]
    } else {
        after_last(line.drop_last(), c).push(line.last())
    }
}

/// Whether a line begins with the given text.
pub open spec fn has_prefix(line: Seq<char>, prefix: Seq<char>) -> bool {
    prefix.len() <= line.len() && line.subrange(0, prefix.len() as int) == prefix
}

/// The first line among `lines` that begins with `aimePath=`.
pub open spec fn first_aime_path(lines: Seq<Seq<char>>) -> Option<Seq<char>>
    decreases lines.len(),
{
    if lines.len() == 0 {
        None
    } else {
        match first_aime_path(lines.drop_last()) {
            Some(v) => Some(v),
            None => if has_prefix(lines.last(), "aimePath="@) {
                Some(lines.last())
            } else {
                None
            },
        }
    }
}

fn after_last_eq(line: &Vec<char>) -> (r: String)
    ensures
        r@ == after_last(line@, '='),
{
    let mut j: usize = line.len();
    assert(line@.take(j as int) =~= line@);
    assert(after_last(line@, '=') =~= after_last(line@.take(j as int), '=') + line@.skip(j as int));
    while j > 0 && line[j - 1] != '='
        invariant
            j <= line@.len(),
            after_last(line@, '=') == after_last(line@.take(j as int), '=') + line@.skip(j as int),
        decreases j,
    {
        assert(line@.take(j as int).drop_last() =~= line@.take(j - 1));
        assert(line@.skip(j - 1) =~= seq![line@[j - 1]] + line@.skip(j as int));
        assert(after_last(line@.take(j - 1), '=').push(line@[j - 1]) + line@.skip(j as int)
            =~= after_last(line@.take(j - 1), '=') + line@.skip(j - 1));
        j = j - 1;
    }
    if j > 0 {
        assert(line@.take(j as int).last() == '=');
    }
    assert(after_last(line@, '=') =~= line@.skip(j as int));
    let mut tail: Vec<char> = Vec::new();
    let mut k: usize = j;
    while k < line.len()
        invariant
            j <= k <= line@.len(),
            tail@ == line@.subrange(j as int, k as int),
        decreases line.len() - k,
    {
        tail.push(line[k]);
        k = k + 1;
        assert(tail@ =~= line@.subrange(j as int, k as int));
    }
    assert(tail@ =~= line@.skip(j as int));
    crate::text::string_of_chars(&tail)
}

fn line_has_prefix(line: &Vec<char>, prefix: &Vec<char>) -> (r: bool)
    ensures
        r == has_prefix(line@, prefix@),
{
    if prefix.len() > line.len() {
        return false;
    }
    let mut i: usize = 0;
    while i < prefix.len()
        invariant
            prefix@.len() <= line@.len(),
            i <= prefix@.len(),
            forall|k: int| 0 <= k < i ==> line@[k] == prefix@[k],
        decreases prefix.len() - i,
    {
        if line[i] != prefix[i] {
            assert(line@.subrange(0, prefix@.len() as int)[i as int] != prefix@[i as int]);
            return false;
        }
        i = i + 1;
    }
    assert(line@.subrange(0, prefix@.len() as int) =~= prefix@);
    true
}

proof fn lemma_first_aime_path_push(lines: Seq<Seq<char>>, line: Seq<char>)
    requires
        first_aime_path(lines) is None,
    ensures
        first_aime_path(lines.push(line)) == (if has_prefix(line, "aimePath="@) {
            Some(line)
        } else {
            None::<Seq<char>>
        }),
{
    assert(lines.push(line).drop_last() =~= lines);
}

proof fn lemma_first_aime_path_extend(p: Seq<Seq<char>>, q: Seq<Seq<char>>)
    requires
        first_aime_path(p) is Some,
    ensures
        first_aime_path(p + q) == first_aime_path(p),
    decreases q.len(),
{
    if q.len() == 0 {
        assert(p + q =~= p);
    } else {
        assert((p + q).drop_last() =~= p + q.drop_last());
        lemma_first_aime_path_extend(p, q.drop_last());
    }
}

proof fn lemma_lines_split_grows(s: Seq<char>, k: int) -> (q: Seq<Seq<char>>)
    requires
        0 <= k <= s.len(),
    ensures
        lines_split(s).0 == lines_split(s.take(k)).0 + q,
    decreases s.len(),
{
    if k == s.len() {
        assert(s.take(k) =~= s);
        assert(lines_split(s).0 + Seq::<Seq<char>>::empty() =~= lines_split(s).0);
        Seq::empty()
    } else {
        assert(s.drop_last().take(k) =~= s.take(k));
        let q0 = lemma_lines_split_grows(s.drop_last(), k);
        let (done, cur) = lines_split(s.drop_last());
        if s.last() == '\n' {
            let q = q0.push(strip_cr(cur));
            assert(lines_split(s).0 =~= lines_split(s.take(k)).0 + q);
            q
        } else {
            q0
        }
    }
}

proof fn lemma_first_aime_path_prefix(s: Seq<char>, k: int, done: Seq<Seq<char>>)
    requires
        0 <= k <= s.len(),
        lines_split(s.take(k)).0 == done,
        first_aime_path(done) is Some,
    ensures
        first_aime_path(text_lines(s)) == first_aime_path(done),
{
    let q = lemma_lines_split_grows(s, k);
    let (all, cur) = lines_split(s);
    if cur.len() > 0 {
        assert(all.push(cur) =~= done + q.push(cur));
        lemma_first_aime_path_extend(done, q.push(cur));
    } else {
        lemma_first_aime_path_extend(done, q);
    }
}

/// Why segatools.ini names no card file.
#[derive(PartialEq, Eq, Clone, Debug)]
pub enum AimePathError {
    /// No line begins with `aimePath=`.
    NotFound,
    /// The first such line gives no path (such as a bare `aimePath=`): the
    /// card reader is not configured. The line is given.
    Unconfigured { line: String },
}

/// Where segatools.ini says the card file is: its first line that begins
/// with `aimePath=`, and what follows the last `=` of that line; an error
/// where no line begins so, or where that line gives an empty path.
pub fn aime_path_value(config: &str) -> (r: Result<(String, String), AimePathError>)
    ensures
        match first_aime_path(text_lines(config@)) {
            None => r == Err::<(String, String), AimePathError>(AimePathError::NotFound),
            Some(line) => if after_last(line, '=').len() == 0 {
                r matches Err(AimePathError::Unconfigured { line: l }) && l@ == line
            } else {
                r matches Ok(p) && p.0@ == line && p.1@ == after_last(line, '=')
            },
        },
{
    match first_aime_line(config) {
        None => Err(AimePathError::NotFound),
        Some((line, value)) => if value.unicode_len() == 0 {
            Err(AimePathError::Unconfigured { line })
        } else {
            Ok((line, value))
        },
    }
}

fn first_aime_line(config: &str) -> (r: Option<(String, String)>)
    ensures
        match first_aime_path(text_lines(config@)) {
            Some(line) => r matches Some(p) && p.0@ == line && p.1@ == after_last(line, '='),
            None => r is None,
        },
{
    let chars = crate::text::chars_of(config);
    let prefix = crate::text::chars_of("aimePath=");
    let mut cur: Vec<char> = Vec::new();
    let ghost mut done: Seq<Seq<char>> = seq![];
    let mut i: usize = 0;
    assert(chars@.take(0) =~= Seq::<char>::empty());
    while i < chars.len()
        invariant
            i <= chars@.len(),
            chars@ == config@,
            prefix@ == "aimePath="@,
            lines_split(chars@.take(i as int)) == (done, cur@),
            first_aime_path(done) is None,
        decreases chars.len() - i,
    {
        let c = chars[i];
        assert(chars@.take(i + 1).drop_last() =~= chars@.take(i as int));
        if c == '\n' {
            let n = cur.len();
            if n > 0 && cur[n - 1] == '\r' {
                cur.pop();
            }
            assert(cur@ == strip_cr(lines_split(chars@.take(i as int)).1));
            proof {
                lemma_first_aime_path_push(done, cur@);
            }
            if line_has_prefix(&cur, &prefix) {
                let v = after_last_eq(&cur);
                assert(first_aime_path(done.push(cur@)) == Some(cur@));
                proof {
                    lemma_first_aime_path_prefix(chars@, i + 1, done.push(cur@));
                }
                return Some((crate::text::string_of_chars(&cur), v));
            }
            proof {
                done = done.push(cur@);
            }
            cur = Vec::new();
        } else {
            cur.push(c);
        }
        i = i + 1;
    }
    assert(chars@.take(i as int) =~= chars@);
    if cur.len() > 0 {
        proof {
            lemma_first_aime_path_push(done, cur@);
        }
        if line_has_prefix(&cur, &prefix) {
            let v = after_last_eq(&cur);
            return Some((crate::text::string_of_chars(&cur), v));
        }
    }
    None
}

/// The name of the button that a self-closing `<button>` tag binds, where
/// it has a `name` attribute.
pub open spec fn button_name(e: XmlEvent) -> Option<Seq<char>> {
    match e {
        XmlEvent::Empty { name, attributes } => if name@ == "button"@ {
            attr_value(attributes@, "name"@)
        } else {
            None
        },
        _ => None,
    }
}

/// The key that a self-closing tag's `vkey` attribute gives.
pub open spec fn button_key(e: XmlEvent) -> i32 {
    match e {
        XmlEvent::Empty { attributes, .. } => vkey_value(attr_value(attributes@, "vkey"@)),
        _ => UNBOUND_KEY,
    }
}

/// Whether some `<button>` among the events is named `button`.
pub open spec fn names_button(events: Seq<XmlEvent>, button: Seq<char>) -> bool {
    exists|i: int| 0 <= i < events.len() && button_name(#[trigger] events[i]) == Some(button)
}

proof fn lemma_scan_cons(e: XmlEvent, rest: Seq<XmlEvent>, game: Seq<char>, in_game: bool, keys: SpiceKeys)
    ensures
        spice_scan(seq![e] + rest, game, in_game, keys) == match spice_step(e, game, in_game, keys) {
            SpiceStep::Fail(err) => Err(err),
            SpiceStep::Done(k) => Ok(k),
            SpiceStep::Next(g, k) => spice_scan(rest, game, g, k),
        },
{
    let all = seq![e] + rest;
    assert(all[0] == e);
    assert(all.drop_first() =~= rest);
}

/// Inside the game's block, a `<button>` named after one of the sixteen
/// actions sets that action's key, and that key alone, to the button's
/// `vkey`.
pub proof fn lemma_button_sets_its_own_key(e: XmlEvent, rest: Seq<XmlEvent>, game: Seq<char>, keys: SpiceKeys)
    ensures
        button_name(e) == Some("Service"@) ==> spice_scan(seq![e] + rest, game, true, keys) == spice_scan(
            rest,
            game,
            true,
            SpiceKeys { service_key: button_key(e), ..keys },
        ),
        button_name(e) == Some("Test"@) ==> spice_scan(seq![e] + rest, game, true, keys) == spice_scan(
            rest,
            game,
            true,
            SpiceKeys { test_key: button_key(e), ..keys },
        ),
        button_name(e) == Some("Coin Mech"@) ==> spice_scan(seq![e] + rest, game, true, keys) == spice_scan(
            rest,
            game,
            true,
            SpiceKeys { coin_key: button_key(e), ..keys },
        ),
        button_name(e) == Some("P1 Keypad 0"@) ==> spice_scan(seq![e] + rest, game, true, keys) == spice_scan(
            rest,
            game,
            true,
            SpiceKeys { p1_keypad_0: button_key(e), ..keys },
        ),
        button_name(e) == Some("P1 Keypad 1"@) ==> spice_scan(seq![e] + rest, game, true, keys) == spice_scan(
            rest,
            game,
            true,
            SpiceKeys { p1_keypad_1: button_key(e), ..keys },
        ),
        button_name(e) == Some("P1 Keypad 2"@) ==> spice_scan(seq![e] + rest, game, true, keys) == spice_scan(
            rest,
            game,
            true,
            SpiceKeys { p1_keypad_2: button_key(e), ..keys },
        ),
        button_name(e) == Some("P1 Keypad 3"@) ==> spice_scan(seq![e] + rest, game, true, keys) == spice_scan(
            rest,
            game,
            true,
            SpiceKeys { p1_keypad_3: button_key(e), ..keys },
        ),
        button_name(e) == Some("P1 Keypad 4"@) ==> spice_scan(seq![e] + rest, game, true, keys) == spice_scan(
            rest,
            game,
            true,
            SpiceKeys { p1_keypad_4: button_key(e), ..keys },
        ),
        button_name(e) == Some("P1 Keypad 5"@) ==> spice_scan(seq![e] + rest, game, true, keys) == spice_scan(
            rest,
            game,
            true,
            SpiceKeys { p1_keypad_5: button_key(e), ..keys },
        ),
        button_name(e) == Some("P1 Keypad 6"@) ==> spice_scan(seq![e] + rest, game, true, keys) == spice_scan(
            rest,
            game,
            true,
            SpiceKeys { p1_keypad_6: button_key(e), ..keys },
        ),
        button_name(e) == Some("P1 Keypad 7"@) ==> spice_scan(seq![e] + rest, game, true, keys) == spice_scan(
            rest,
            game,
            true,
            SpiceKeys { p1_keypad_7: button_key(e), ..keys },
        ),
        button_name(e) == Some("P1 Keypad 8"@) ==> spice_scan(seq![e] + rest, game, true, keys) == spice_scan(
            rest,
            game,
            true,
            SpiceKeys { p1_keypad_8: button_key(e), ..keys },
        ),
        button_name(e) == Some("P1 Keypad 9"@) ==> spice_scan(seq![e] + rest, game, true, keys) == spice_scan(
            rest,
            game,
            true,
            SpiceKeys { p1_keypad_9: button_key(e), ..keys },
        ),
        button_name(e) == Some("P1 Keypad 00"@) ==> spice_scan(seq![e] + rest, game, true, keys) == spice_scan(
            rest,
            game,
            true,
            SpiceKeys { p1_keypad_00: button_key(e), ..keys },
        ),
        button_name(e) == Some("P1 Keypad Decimal"@) ==> spice_scan(seq![e] + rest, game, true, keys) == spice_scan(
            rest,
            game,
            true,
            SpiceKeys { p1_keypad_decimal: button_key(e), ..keys },
        ),
        button_name(e) == Some("P1 Keypad Insert Card"@) ==> spice_scan(seq![e] + rest, game, true, keys) == spice_scan(
            rest,
            game,
            true,
            SpiceKeys { p1_keypad_insert_card: button_key(e), ..keys },
        ),
{
    reveal_strlit("Service");
    reveal_strlit("Test");
    reveal_strlit("Coin Mech");
    reveal_strlit("P1 Keypad 0");
    reveal_strlit("P1 Keypad 1");
    reveal_strlit("P1 Keypad 2");
    reveal_strlit("P1 Keypad 3");
    reveal_strlit("P1 Keypad 4");
    reveal_strlit("P1 Keypad 5");
    reveal_strlit("P1 Keypad 6");
    reveal_strlit("P1 Keypad 7");
    reveal_strlit("P1 Keypad 8");
    reveal_strlit("P1 Keypad 9");
    reveal_strlit("P1 Keypad 00");
    reveal_strlit("P1 Keypad Decimal");
    reveal_strlit("P1 Keypad Insert Card");
    assert("Service"@.len() == 7);
    assert("Test"@.len() == 4);
    assert("Coin Mech"@.len() == 9);
    assert("P1 Keypad 0"@.len() == 11);
    assert("P1 Keypad 1"@.len() == 11);
    assert("P1 Keypad 2"@.len() == 11);
    assert("P1 Keypad 3"@.len() == 11);
    assert("P1 Keypad 4"@.len() == 11);
    assert("P1 Keypad 5"@.len() == 11);
    assert("P1 Keypad 6"@.len() == 11);
    assert("P1 Keypad 7"@.len() == 11);
    assert("P1 Keypad 8"@.len() == 11);
    assert("P1 Keypad 9"@.len() == 11);
    assert("P1 Keypad 00"@.len() == 12);
    assert("P1 Keypad Decimal"@.len() == 17);
    assert("P1 Keypad Insert Card"@.len() == 21);
    assert("P1 Keypad 0"@[10] == '0');
    assert("P1 Keypad 1"@[10] == '1');
    assert("P1 Keypad 2"@[10] == '2');
    assert("P1 Keypad 3"@[10] == '3');
    assert("P1 Keypad 4"@[10] == '4');
    assert("P1 Keypad 5"@[10] == '5');
    assert("P1 Keypad 6"@[10] == '6');
    assert("P1 Keypad 7"@[10] == '7');
    assert("P1 Keypad 8"@[10] == '8');
    assert("P1 Keypad 9"@[10] == '9');
    lemma_scan_cons(e, rest, game, true, keys);
}

/// A key changes only when a `<button>` named after its action is read:
/// one step of reading spicetools.xml changes no other key.
pub proof fn lemma_step_changes_only_the_named_key(e: XmlEvent, game: Seq<char>, in_game: bool, keys: SpiceKeys)
    ensures
        spice_step(e, game, in_game, keys) matches SpiceStep::Next(_, r) ==> {
            &&& r.service_key != keys.service_key ==> button_name(e) == Some("Service"@)
            &&& r.test_key != keys.test_key ==> button_name(e) == Some("Test"@)
            &&& r.coin_key != keys.coin_key ==> button_name(e) == Some("Coin Mech"@)
            &&& r.p1_keypad_0 != keys.p1_keypad_0 ==> button_name(e) == Some("P1 Keypad 0"@)
            &&& r.p1_keypad_1 != keys.p1_keypad_1 ==> button_name(e) == Some("P1 Keypad 1"@)
            &&& r.p1_keypad_2 != keys.p1_keypad_2 ==> button_name(e) == Some("P1 Keypad 2"@)
            &&& r.p1_keypad_3 != keys.p1_keypad_3 ==> button_name(e) == Some("P1 Keypad 3"@)
            &&& r.p1_keypad_4 != keys.p1_keypad_4 ==> button_name(e) == Some("P1 Keypad 4"@)
            &&& r.p1_keypad_5 != keys.p1_keypad_5 ==> button_name(e) == Some("P1 Keypad 5"@)
            &&& r.p1_keypad_6 != keys.p1_keypad_6 ==> button_name(e) == Some("P1 Keypad 6"@)
            &&& r.p1_keypad_7 != keys.p1_keypad_7 ==> button_name(e) == Some("P1 Keypad 7"@)
            &&& r.p1_keypad_8 != keys.p1_keypad_8 ==> button_name(e) == Some("P1 Keypad 8"@)
            &&& r.p1_keypad_9 != keys.p1_keypad_9 ==> button_name(e) == Some("P1 Keypad 9"@)
            &&& r.p1_keypad_00 != keys.p1_keypad_00 ==> button_name(e) == Some("P1 Keypad 00"@)
            &&& r.p1_keypad_decimal != keys.p1_keypad_decimal ==> button_name(e) == Some("P1 Keypad Decimal"@)
            &&& r.p1_keypad_insert_card != keys.p1_keypad_insert_card ==> button_name(e) == Some("P1 Keypad Insert Card"@)
        },
        spice_step(e, game, in_game, keys) matches SpiceStep::Done(r) ==> r == keys,
{
}

/// Reading spicetools.xml leaves every key whose action no `<button>` names
/// as it was.
pub proof fn lemma_unnamed_keys_stay(events: Seq<XmlEvent>, game: Seq<char>, in_game: bool, keys: SpiceKeys)
    ensures
        !names_button(events, "Service"@) ==> (spice_scan(events, game, in_game, keys) matches Ok(r) ==> r.service_key == keys.service_key),
        !names_button(events, "Test"@) ==> (spice_scan(events, game, in_game, keys) matches Ok(r) ==> r.test_key == keys.test_key),
        !names_button(events, "Coin Mech"@) ==> (spice_scan(events, game, in_game, keys) matches Ok(r) ==> r.coin_key == keys.coin_key),
        !names_button(events, "P1 Keypad 0"@) ==> (spice_scan(events, game, in_game, keys) matches Ok(r) ==> r.p1_keypad_0 == keys.p1_keypad_0),
        !names_button(events, "P1 Keypad 1"@) ==> (spice_scan(events, game, in_game, keys) matches Ok(r) ==> r.p1_keypad_1 == keys.p1_keypad_1),
        !names_button(events, "P1 Keypad 2"@) ==> (spice_scan(events, game, in_game, keys) matches Ok(r) ==> r.p1_keypad_2 == keys.p1_keypad_2),
        !names_button(events, "P1 Keypad 3"@) ==> (spice_scan(events, game, in_game, keys) matches Ok(r) ==> r.p1_keypad_3 == keys.p1_keypad_3),
        !names_button(events, "P1 Keypad 4"@) ==> (spice_scan(events, game, in_game, keys) matches Ok(r) ==> r.p1_keypad_4 == keys.p1_keypad_4),
        !names_button(events, "P1 Keypad 5"@) ==> (spice_scan(events, game, in_game, keys) matches Ok(r) ==> r.p1_keypad_5 == keys.p1_keypad_5),
        !names_button(events, "P1 Keypad 6"@) ==> (spice_scan(events, game, in_game, keys) matches Ok(r) ==> r.p1_keypad_6 == keys.p1_keypad_6),
        !names_button(events, "P1 Keypad 7"@) ==> (spice_scan(events, game, in_game, keys) matches Ok(r) ==> r.p1_keypad_7 == keys.p1_keypad_7),
        !names_button(events, "P1 Keypad 8"@) ==> (spice_scan(events, game, in_game, keys) matches Ok(r) ==> r.p1_keypad_8 == keys.p1_keypad_8),
        !names_button(events, "P1 Keypad 9"@) ==> (spice_scan(events, game, in_game, keys) matches Ok(r) ==> r.p1_keypad_9 == keys.p1_keypad_9),
        !names_button(events, "P1 Keypad 00"@) ==> (spice_scan(events, game, in_game, keys) matches Ok(r) ==> r.p1_keypad_00 == keys.p1_keypad_00),
        !names_button(events, "P1 Keypad Decimal"@) ==> (spice_scan(events, game, in_game, keys) matches Ok(r) ==> r.p1_keypad_decimal == keys.p1_keypad_decimal),
        !names_button(events, "P1 Keypad Insert Card"@) ==> (spice_scan(events, game, in_game, keys) matches Ok(r) ==> r.p1_keypad_insert_card == keys.p1_keypad_insert_card),
    decreases events.len(),
{
    if events.len() > 0 {
        let e = events[0];
        let rest = events.drop_first();
        lemma_step_changes_only_the_named_key(e, game, in_game, keys);
        assert forall|b: Seq<char>| names_button(rest, b) implies names_button(events, b) by {
            let i = choose|i: int| 0 <= i < rest.len() && button_name(#[trigger] rest[i]) == Some(b);
            assert(events[i + 1] == rest[i]);
        }
        assert forall|b: Seq<char>| button_name(e) == Some(b) implies names_button(events, b) by {
            assert(events[0] == e);
        }
        match spice_step(e, game, in_game, keys) {
            SpiceStep::Next(g, k) => {
                lemma_unnamed_keys_stay(rest, game, g, k);
            },
            _ => {},
        }
    }
}

/// The keys that spicetools.xml does not bind are spice's own defaults:
/// the numeric keypad's keys for the keypad (0x60 + n for digit n, Enter
/// for 00, the decimal point for both the decimal and Insert Card), and
/// 1, 2 and 3 for test, service and coin.
pub proof fn lemma_unbound_keys_are_spice_defaults(events: Seq<XmlEvent>, game: Seq<char>)
    ensures
        !names_button(events, "Service"@) ==> (spice_scan(events, game, false, default_spice_keys()) matches Ok(r) ==> r.service_key == 0x32),
        !names_button(events, "Test"@) ==> (spice_scan(events, game, false, default_spice_keys()) matches Ok(r) ==> r.test_key == 0x31),
        !names_button(events, "Coin Mech"@) ==> (spice_scan(events, game, false, default_spice_keys()) matches Ok(r) ==> r.coin_key == 0x33),
        !names_button(events, "P1 Keypad 0"@) ==> (spice_scan(events, game, false, default_spice_keys()) matches Ok(r) ==> r.p1_keypad_0 == 0x60),
        !names_button(events, "P1 Keypad 1"@) ==> (spice_scan(events, game, false, default_spice_keys()) matches Ok(r) ==> r.p1_keypad_1 == 0x61),
        !names_button(events, "P1 Keypad 2"@) ==> (spice_scan(events, game, false, default_spice_keys()) matches Ok(r) ==> r.p1_keypad_2 == 0x62),
        !names_button(events, "P1 Keypad 3"@) ==> (spice_scan(events, game, false, default_spice_keys()) matches Ok(r) ==> r.p1_keypad_3 == 0x63),
        !names_button(events, "P1 Keypad 4"@) ==> (spice_scan(events, game, false, default_spice_keys()) matches Ok(r) ==> r.p1_keypad_4 == 0x64),
        !names_button(events, "P1 Keypad 5"@) ==> (spice_scan(events, game, false, default_spice_keys()) matches Ok(r) ==> r.p1_keypad_5 == 0x65),
        !names_button(events, "P1 Keypad 6"@) ==> (spice_scan(events, game, false, default_spice_keys()) matches Ok(r) ==> r.p1_keypad_6 == 0x66),
        !names_button(events, "P1 Keypad 7"@) ==> (spice_scan(events, game, false, default_spice_keys()) matches Ok(r) ==> r.p1_keypad_7 == 0x67),
        !names_button(events, "P1 Keypad 8"@) ==> (spice_scan(events, game, false, default_spice_keys()) matches Ok(r) ==> r.p1_keypad_8 == 0x68),
        !names_button(events, "P1 Keypad 9"@) ==> (spice_scan(events, game, false, default_spice_keys()) matches Ok(r) ==> r.p1_keypad_9 == 0x69),
        !names_button(events, "P1 Keypad 00"@) ==> (spice_scan(events, game, false, default_spice_keys()) matches Ok(r) ==> r.p1_keypad_00 == 0x0D),
        !names_button(events, "P1 Keypad Decimal"@) ==> (spice_scan(events, game, false, default_spice_keys()) matches Ok(r) ==> r.p1_keypad_decimal == 0x6E),
        !names_button(events, "P1 Keypad Insert Card"@) ==> (spice_scan(events, game, false, default_spice_keys()) matches Ok(r) ==> r.p1_keypad_insert_card == 0x6E),
{
    lemma_unnamed_keys_stay(events, game, false, default_spice_keys());
}

/// Keypad buttons 1 to 9 press the keys of keypad digits 1 to 9; button 10
/// presses the key of digit 0, 11 that of 00 and 12 that of the decimal
/// point; no other button presses anything.
pub proof fn lemma_keypad_buttons(keys: SpiceKeys, n: i32)
    ensures
        keypad_key(keys, 1) == keys.p1_keypad_1,
        keypad_key(keys, 2) == keys.p1_keypad_2,
        keypad_key(keys, 3) == keys.p1_keypad_3,
        keypad_key(keys, 4) == keys.p1_keypad_4,
        keypad_key(keys, 5) == keys.p1_keypad_5,
        keypad_key(keys, 6) == keys.p1_keypad_6,
        keypad_key(keys, 7) == keys.p1_keypad_7,
        keypad_key(keys, 8) == keys.p1_keypad_8,
        keypad_key(keys, 9) == keys.p1_keypad_9,
        keypad_key(keys, 10) == keys.p1_keypad_0,
        keypad_key(keys, 11) == keys.p1_keypad_00,
        keypad_key(keys, 12) == keys.p1_keypad_decimal,
        n < 1 || n > 12 ==> keypad_key(keys, n) == UNBOUND_KEY,
{
}

/// Only the end of a `<game>` element ends the game's block: an element of
/// another name that opens or closes inside it changes nothing, and the
/// end of the `<game>` element ends reading with the keys read so far.
pub proof fn lemma_only_game_end_closes_block(e: XmlEvent, rest: Seq<XmlEvent>, game: Seq<char>, keys: SpiceKeys)
    ensures
        e matches XmlEvent::Start { name, .. } && name@ != "game"@ ==> spice_scan(seq![e] + rest, game, true, keys)
            == spice_scan(rest, game, true, keys),
        e matches XmlEvent::End { name } && name@ != "game"@ ==> spice_scan(seq![e] + rest, game, true, keys)
            == spice_scan(rest, game, true, keys),
        e matches XmlEvent::End { name } && name@ == "game"@ ==> spice_scan(seq![e] + rest, game, true, keys)
            == Ok::<SpiceKeys, XmlScanError>(keys),
{
    lemma_scan_cons(e, rest, game, true, keys);
}

/// A `vkey` written as a decimal number binds that number; a missing
/// `vkey` leaves the button unbound.
pub proof fn lemma_vkey_of_decimal(k: i32)
    ensures
        vkey_value(Some(int_decimal(k as int))) == k,
        vkey_value(None) == UNBOUND_KEY,
{
    lemma_int_decimal_parses_back(k as i64);
    assert(signed_value(int_decimal(k as int), 10) == Some(k as int));
}

/// The `<game>` element named after the game opens its block; a `<game>`
/// element of another game, and any other element, does not.
pub proof fn lemma_game_block_opens(e: XmlEvent, rest: Seq<XmlEvent>, game: Seq<char>, keys: SpiceKeys)
    ensures
        e matches XmlEvent::Start { name, attributes } && name@ == "game"@ && attr_value(attributes@, "name"@)
            == Some(game) ==> spice_scan(seq![e] + rest, game, false, keys) == spice_scan(rest, game, true, keys),
        e matches XmlEvent::Start { name, attributes } && (name@ != "game"@ || attr_value(attributes@, "name"@)
            != Some(game)) ==> spice_scan(seq![e] + rest, game, false, keys) == spice_scan(rest, game, false, keys),
{
    lemma_scan_cons(e, rest, game, false, keys);
}

/// The model codes of ea3-config.xml that name each game: KFC for Sound
/// Voltex, LDJ for Beatmania IIDX, L44 for Jubeat; every other model is
/// unsupported.
pub proof fn lemma_game_models(model: Seq<char>)
    ensures
        game_of_model(model) == SpiceGameType::SoundVortex <==> model == "KFC"@,
        game_of_model(model) == SpiceGameType::IIDX <==> model == "LDJ"@,
        game_of_model(model) == SpiceGameType::Jubeat <==> model == "L44"@,
{
    reveal_strlit("KFC");
    reveal_strlit("LDJ");
    reveal_strlit("L44");
    assert("KFC"@[0] == 'K' && "LDJ"@[0] == 'L' && "L44"@[1] == '4' && "LDJ"@[1] == 'D');
}

} // verus!
