use zk_tui::activities::cave::CaveMode;
use zk_tui::activities::ceremony::CeremonyPart;
use zk_tui::activities::forge::ForgeTarget;
use zk_tui::activities::pool::store::{chosen_system, pool_dir, pools, resolve_root, system_file};
use zk_tui::activities::pool::{parse_amount, parse_unsigned, PoolSystem};
use zk_tui::activities::trio::{TrioCheat, TrioMode};
use zk_tui::activities::{grouped, hex, short_hex, Pace};

#[test]
fn hex_is_shortened_with_an_ellipsis() {
    assert_eq!(short_hex("00112233", 2), "0011…");
    assert_eq!(short_hex("0011", 2), "0011");
    assert_eq!(hex(&[0xab, 0x01]), "ab01");
}

#[test]
fn the_data_directory_follows_the_platform_and_the_flag() {
    assert_eq!(resolve_root(None, false, Some("/home/a"), Some("/data")), Some("/data/nmtzk".to_string()));
    assert_eq!(
        resolve_root(None, false, Some("/home/a"), Some("relative")),
        Some("/home/a/.local/share/nmtzk".to_string())
    );
    assert_eq!(
        resolve_root(None, true, Some("/home/a"), Some("/data")),
        Some("/home/a/Library/Application Support/nmtzk".to_string())
    );
    assert_eq!(resolve_root(None, false, None, None), None);
    assert_eq!(resolve_root(Some("/tmp/x"), false, None, None), Some("/tmp/x".to_string()));
    assert_eq!(pool_dir("/tmp/x", PoolSystem::Halo2), "/tmp/x/pool/halo2");
}

#[test]
fn grouped_digits_come_in_threes() {
    assert_eq!(grouped(1_099_511_627_776), "1,099,511,627,776");
    assert_eq!(grouped(0), "0");
    assert_eq!(grouped(999), "999");
    assert_eq!(grouped(1000), "1,000");
    assert_eq!(grouped(u128::MAX), "340,282,366,920,938,463,463,374,607,431,768,211,455");
}

#[test]
fn every_word_names_its_value_and_no_other() {
    for mode in CaveMode::all() {
        assert_eq!(CaveMode::from_key(mode.key()), Some(mode));
    }
    for part in CeremonyPart::all() {
        assert_eq!(CeremonyPart::from_key(part.key()), Some(part));
    }
    for target in ForgeTarget::all() {
        assert_eq!(ForgeTarget::from_key(target.key()), Some(target));
    }
    for cheat in TrioCheat::all() {
        assert_eq!(TrioCheat::from_key(cheat.key()), Some(cheat));
    }
    for system in PoolSystem::all() {
        assert_eq!(PoolSystem::from_key(system.key()), Some(system));
    }
    assert_eq!(CaveMode::from_key("jealous-edit"), Some(CaveMode::JealousEdit));
    assert_eq!(CaveMode::from_key("Court"), None);
    assert_eq!(CeremonyPart::from_key("tau"), Some(CeremonyPart::Tau));
    assert_eq!(TrioCheat::from_key("lie"), None);
    assert_eq!(ForgeTarget::from_key("groth16"), None);
    assert_eq!(TrioMode::Cheat(TrioCheat::BadCard).key(), "cheat");
    assert_eq!(TrioMode::Simulate.key(), "simulate");
    assert_eq!(PoolSystem::Halo2.name(), "Halo 2");
    assert_eq!(PoolSystem::default(), PoolSystem::Groth16);
    assert_eq!(Pace::default(), Pace::Story);
}

#[test]
fn amounts_are_whole_numbers_up_to_65535() {
    assert_eq!(parse_amount("120"), Some(120));
    assert_eq!(parse_amount("0"), Some(0));
    assert_eq!(parse_amount("+7"), Some(7));
    assert_eq!(parse_amount("65535"), Some(65535));
    assert_eq!(parse_amount("65536"), None);
    assert_eq!(parse_amount("lots"), None);
    assert_eq!(parse_amount(""), None);
    assert_eq!(parse_amount("+"), None);
    assert_eq!(parse_amount("-1"), None);
    assert_eq!(parse_amount(" 1"), None);
    assert_eq!(parse_unsigned("4294967295", u32::MAX), Some(u32::MAX));
    assert_eq!(parse_unsigned("4294967296", u32::MAX), None);
}

#[test]
fn the_system_file_remembers_the_system() {
    for system in PoolSystem::all() {
        let text = system_file(system);
        assert_eq!(chosen_system(Some(&text)), system);
    }
    assert_eq!(system_file(PoolSystem::Halo2), "halo2\n");
    assert_eq!(chosen_system(Some("  halo2 \n")), PoolSystem::Halo2);
    assert_eq!(chosen_system(Some("plonk")), PoolSystem::Groth16);
    assert_eq!(chosen_system(None), PoolSystem::Groth16);
    assert_eq!(pools(""), "pool");
    assert_eq!(pools("/srv/"), "/srv/pool");
}

#[test]
fn short_hex_cuts_by_bytes_at_a_character() {
    assert_eq!(short_hex("äbcd", 1), "ä…");
    assert_eq!(short_hex("äbcd", 3), "äbcd");
    assert_eq!(short_hex("", 0), "");
}
