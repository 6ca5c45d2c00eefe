use openixcli::bytes::{read_u32, read_u64, write_u32};
use openixcli::config::gpt_parser::{Gpt, GptPartition};
use openixcli::error::FlashError;
use openixcli::firmware::sparse::is_sparse_image;
use openixcli::flash::device_session::{first_device, plan_connect, ConnectPlan, DeviceMode, UsbLocation};
use openixcli::flash::fel_bootstrap::{
    plan_partition_fes_entry, reconnect_step, FesEntry, ReconnectAction, RECONNECT_MAX_RETRIES,
};
use openixcli::flash::fel_handler::bootstrap::FelBootstrap;
use openixcli::flash::partition_flash::gpt_reader::{gpt_entries_read, gpt_header_read, SectorRead};
use openixcli::flash::partition_flash::{partition_post_action, plan_partition_write, PartitionWritePlan};
use openixcli::flash::raw_image::{
    plan_raw_fes_entry, plan_raw_write, post_action_mode, RawImageOptions, RawWritePlan, ToolMode,
};

fn gpt_with(parts: Vec<(&str, u64, u64)>) -> Gpt {
    Gpt {
        partition_entries_lba: 2,
        num_entries: 128,
        entry_size: 128,
        partitions: parts
            .into_iter()
            .map(|(n, f, l)| GptPartition { name: n.to_string(), first_lba: f, last_lba: l })
            .collect(),
    }
}

#[test]
fn partition_write_is_placed_at_the_compensated_first_lba() {
    let gpt = gpt_with(vec![("env", 100, 131), ("boot", 32768, 32768 + 1023)]);
    let img = vec![0u8; 1024 * 512];
    assert_eq!(
        plan_partition_write(&gpt, "boot", &img, 40960).unwrap(),
        PartitionWritePlan { index: 1, start_sector: 0xffff_e000, sparse: false }
    );
    assert_eq!(
        plan_partition_write(&gpt, "env", &[1, 2, 3], 0).unwrap(),
        PartitionWritePlan { index: 0, start_sector: 100, sparse: false }
    );
}

#[test]
fn partition_write_errors() {
    let gpt = gpt_with(vec![("env", 100, 131)]);
    assert_eq!(
        plan_partition_write(&gpt, "boot", &[0], 0).unwrap_err(),
        FlashError::PartitionNotFound("boot".to_string())
    );
    let img = vec![0u8; 32 * 512 + 1];
    assert_eq!(
        plan_partition_write(&gpt, "env", &img, 0).unwrap_err(),
        FlashError::RawImageTooLarge { image: 32 * 512 + 1, capacity: 32 * 512 }
    );
    // A partition whose byte size exceeds u64 takes any image.
    let huge = gpt_with(vec![("all", 0, u64::MAX)]);
    assert!(plan_partition_write(&huge, "all", &img, 0).is_ok());
}

#[test]
fn sparse_images_are_detected_by_magic() {
    let mut img = vec![0u8; 28];
    img[0..4].copy_from_slice(&0xED26_FF3Au32.to_le_bytes());
    assert!(is_sparse_image(&img));
    assert!(!is_sparse_image(&img[..27]));
    img[0] = 0;
    assert!(!is_sparse_image(&img));
    let mut img = vec![0u8; 64];
    img[0..4].copy_from_slice(&0xED26_FF3Au32.to_le_bytes());
    let gpt = gpt_with(vec![("userdata", 0, 10)]);
    assert!(plan_partition_write(&gpt, "userdata", &img, 0).unwrap().sparse);
}

#[test]
fn raw_write_plan() {
    assert_eq!(
        plan_raw_write(1025, 2, 40960).unwrap_err(),
        FlashError::RawImageTooLarge { image: 1025, capacity: 1024 }
    );
    assert_eq!(
        plan_raw_write(1024, 2, 40960).unwrap(),
        RawWritePlan { start_sector: 0xffff_6000, capacity: 1024 }
    );
    assert_eq!(plan_raw_write(0, 0, 0).unwrap(), RawWritePlan { start_sector: 0, capacity: 0 });
    assert_eq!(plan_raw_write(0, u32::MAX, 0).unwrap().capacity, u32::MAX as u64 * 512);
}

#[test]
fn post_actions() {
    assert_eq!(post_action_mode("poweroff"), ToolMode::PowerOff);
    assert_eq!(post_action_mode("shutdown"), ToolMode::PowerOff);
    assert_eq!(post_action_mode("reboot"), ToolMode::Reboot);
    assert_eq!(post_action_mode("none"), ToolMode::Reboot);
    assert_eq!(partition_post_action("none"), None);
    assert_eq!(partition_post_action("shutdown"), Some(ToolMode::PowerOff));
    assert_eq!(partition_post_action("reboot"), Some(ToolMode::Reboot));
}

#[test]
fn connection_plans() {
    assert_eq!(plan_connect(Some(1), Some(5)), ConnectPlan::OpenAt(UsbLocation { bus: 1, port: 5 }));
    assert_eq!(plan_connect(Some(1), None), ConnectPlan::ScanFirst);
    assert_eq!(plan_connect(None, None), ConnectPlan::ScanFirst);
    assert_eq!(first_device(&vec![]), Err(FlashError::DeviceNotFound));
    let devs = vec![UsbLocation { bus: 3, port: 2 }, UsbLocation { bus: 1, port: 1 }];
    assert_eq!(first_device(&devs), Ok(UsbLocation { bus: 3, port: 2 }));
}

#[test]
fn partition_fes_entry() {
    assert!(matches!(plan_partition_fes_entry(DeviceMode::Srv, &None), Ok(FesEntry::AlreadyInFes)));
    match plan_partition_fes_entry(DeviceMode::Fel, &Some("a.img".to_string())) {
        Ok(FesEntry::BootstrapFirmware(p)) => assert_eq!(p, "a.img"),
        _ => panic!("expected a firmware bootstrap"),
    }
    assert!(matches!(
        plan_partition_fes_entry(DeviceMode::Fel, &None),
        Err(FlashError::DeviceNotInFes(DeviceMode::Fel))
    ));
    assert!(matches!(
        plan_partition_fes_entry(DeviceMode::Other, &Some("a.img".to_string())),
        Err(FlashError::DeviceNotInFes(DeviceMode::Other))
    ));
}

fn raw_opts(bootstrap: Option<String>, uboot_sector: usize) -> RawImageOptions {
    RawImageOptions {
        bus: None,
        port: None,
        verify: true,
        post_action: "reboot".to_string(),
        uboot_sector,
        bootstrap,
        logic_offset: 40960,
    }
}

#[test]
fn raw_fes_entry() {
    let img = vec![0u8; 64];
    assert!(matches!(
        plan_raw_fes_entry(DeviceMode::Srv, &img, &raw_opts(None, 32800)),
        Ok(FesEntry::AlreadyInFes)
    ));
    assert!(matches!(
        plan_raw_fes_entry(DeviceMode::Fel, &img, &raw_opts(Some("b.img".to_string()), 32800)),
        Ok(FesEntry::BootstrapFirmware(_))
    ));
    assert!(matches!(
        plan_raw_fes_entry(DeviceMode::Fel, &img, &raw_opts(None, 32800)),
        Err(FlashError::InvalidFirmwareFormat(_))
    ));
    let mut img = vec![0u8; 64 * 512 + 4096];
    img[8192 + 4..8192 + 12].copy_from_slice(b"eGON.BT0");
    img[8192 + 16..8192 + 20].copy_from_slice(&512u32.to_le_bytes());
    img[64 * 512 + 4..64 * 512 + 9].copy_from_slice(b"uboot");
    img[64 * 512 + 20..64 * 512 + 24].copy_from_slice(&1024u32.to_le_bytes());
    match plan_raw_fes_entry(DeviceMode::Fel, &img, &raw_opts(None, 64)) {
        Ok(FesEntry::BootstrapRawImage(bs)) => {
            assert_eq!(bs.boot0.len(), 512);
            assert_eq!(bs.uboot.len(), 1024);
        },
        _ => panic!("expected a raw-image bootstrap"),
    }
}

#[test]
fn gpt_read_plans() {
    assert_eq!(gpt_header_read(40960), SectorRead { sector: 0xffff_6001, count: 1 });
    assert_eq!(gpt_header_read(0), SectorRead { sector: 1, count: 1 });
    let gpt = gpt_with(vec![]);
    assert_eq!(gpt_entries_read(&gpt, 40960), SectorRead { sector: 0xffff_6002, count: 32 });
    let mut odd = gpt_with(vec![]);
    odd.num_entries = 3;
    odd.entry_size = 200;
    odd.partition_entries_lba = 0x1_0000_0005;
    assert_eq!(gpt_entries_read(&odd, 0), SectorRead { sector: 5, count: 2 });
}

#[test]
fn le_fields() {
    let b = [0x78u8, 0x56, 0x34, 0x12, 0xF0, 0xDE, 0xBC, 0x9A];
    assert_eq!(read_u32(&b, 0), 0x1234_5678);
    assert_eq!(read_u64(&b, 0), 0x9ABC_DEF0_1234_5678);
    let mut v = vec![0u8; 6];
    write_u32(&mut v, 1, 0xA1B2_C3D4);
    assert_eq!(v, vec![0, 0xD4, 0xC3, 0xB2, 0xA1, 0]);
    assert_eq!(read_u32(&v, 1), 0xA1B2_C3D4);
}

#[test]
fn fel_bootstrap_keeps_verbosity() {
    assert!(FelBootstrap::new(true).verbose);
    assert!(!FelBootstrap::new(false).verbose);
}

#[test]
fn reconnect_steps() {
    assert_eq!(reconnect_step(0, true), ReconnectAction::Accept);
    assert_eq!(reconnect_step(24, true), ReconnectAction::Accept);
    assert_eq!(reconnect_step(0, false), ReconnectAction::Retry(1));
    assert_eq!(reconnect_step(23, false), ReconnectAction::Retry(24));
    assert_eq!(reconnect_step(RECONNECT_MAX_RETRIES - 1, false), ReconnectAction::GiveUp);
    assert_eq!(reconnect_step(u32::MAX, false), ReconnectAction::GiveUp);
    // Starting from 0, a device that never shows up is given up on after 25 rounds.
    let mut retries = 0;
    let mut rounds = 0;
    loop {
        rounds += 1;
        match reconnect_step(retries, false) {
            ReconnectAction::Retry(n) => retries = n,
            _ => break,
        }
    }
    assert_eq!(rounds, 25);
}
