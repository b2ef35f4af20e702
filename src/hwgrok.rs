//! The hardware inventory snapshot: chassis, PCI devices, drive bays,
//! processors, memory, service processor, power supplies and fans.
use vstd::prelude::*;

verus! {

/// A whole inventory snapshot.
#[derive(Debug, Default)]
pub struct HwGrok {
    pub chassis: HwGrokChassis,
    pub pci_devices: Vec<HwGrokPciDevices>,
    pub drive_bays: Vec<HwGrokDriveBay>,
    pub processors: Vec<HwGrokProcessors>,
    pub memory: Vec<HwGrokDimmSlot>,
    pub sp: Option<HwGrokSP>,
    pub psus: Vec<HwGrokPSU>,
    pub fans: Vec<HwGrokFan>,
}

/// The service processor.
#[derive(Debug, Default)]
pub struct HwGrokSP {
    pub sp_fmri: String,
    pub sp_fw_version: String,
    pub sp_mac_addr: String,
    pub sp_ipv4_adrr: String,
    pub sp_ipv4_subnet: String,
    pub sp_ipv4_gateway: String,
    pub sp_ipv4_cfg_type: String,
}

/// The chassis.
#[derive(Debug, Default)]
pub struct HwGrokChassis {
    pub chassis_fmri: String,
    pub chassis_manufacturer: String,
    pub chassis_model: String,
    pub chassis_leds: Vec<HwGrokLED>,
}

/// One processor socket.
#[derive(Debug, Default)]
pub struct HwGrokProcessors {
    pub chip_fmri: String,
    pub chip_label: String,
    pub chip_brand: String,
    pub chip_leds: Vec<HwGrokLED>,
}

/// One memory slot, with the module it holds, if any.
#[derive(Debug, Default)]
pub struct HwGrokDimmSlot {
    pub slot_fmri: String,
    pub slot_label: String,
    pub dimm: Option<HwGrokDimm>,
}

/// One memory module.
#[derive(Debug, Default)]
pub struct HwGrokDimm {
    pub dimm_fmri: String,
    pub dimm_manufacturer: String,
    pub dimm_part: String,
    pub dimm_type: String,
    pub dimm_size: u64,
    pub dimm_leds: Vec<HwGrokLED>,
}

/// One PCI device.
#[derive(Debug, Default)]
pub struct HwGrokPciDevices {
    pub pci_fmri: String,
    pub pci_label: String,
    pub pci_vendor_name: String,
    pub pci_device_name: String,
    pub pci_subsystem_name: String,
    pub pci_device_path: String,
}

/// One drive bay, with the disk it holds, if any.
#[derive(Debug, Default)]
pub struct HwGrokDriveBay {
    pub bay_fmri: String,
    pub bay_label: String,
    pub bay_disk: Option<HwGrokDisk>,
    pub bay_leds: Vec<HwGrokLED>,
}

/// One disk.
#[derive(Debug, Default)]
pub struct HwGrokDisk {
    pub disk_fmri: String,
    pub disk_manufacturer: String,
    pub disk_model: String,
    pub disk_serial_number: String,
    pub disk_firmware_rev: String,
    pub disk_device_path: String,
    pub disk_size: u64,
    pub disk_rpm: Option<u64>,
}

/// One power supply.
#[derive(Debug, Default)]
pub struct HwGrokPSU {
    pub psu_fmri: String,
    pub psu_label: String,
    pub psu_manufacturer: String,
    pub psu_model: String,
    pub psu_firmware_rev: String,
    pub psu_leds: Vec<HwGrokLED>,
}

/// One fan.
#[derive(Debug, Default)]
pub struct HwGrokFan {
    pub fan_fmri: String,
    pub fan_label: String,
    pub fan_leds: Vec<HwGrokLED>,
}

/// One indicator light.
#[derive(Debug, Default)]
pub struct HwGrokLED {
    pub led_type: String,
    pub led_mode: String,
}

} // verus!
