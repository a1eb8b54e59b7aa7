//! Core library of the soradyne self-data protocol: GF(256) arithmetic, Shamir key
//! sharing and dissolution coding of blocks, flow schemas and drip host tracking, and
//! capsule key material.

pub mod storage;
pub mod flow;
pub mod identity;
pub mod ffi;

use vstd::prelude::*;

verus! {

/// How many storage devices are present against the number needed to read data.
#[derive(Debug, Clone)]
pub struct StorageStatus {
    pub available_devices: usize,
    pub required_threshold: usize,
    pub can_read_data: bool,
    pub missing_devices: usize,
    pub device_paths: Vec<String>,
}

impl StorageStatus {
    /// The status for the devices found at `device_paths` when `required_threshold` of
    /// them are needed: data can be read when enough are present, and the shortfall is
    /// what is missing.
    pub fn from_devices(device_paths: Vec<String>, required_threshold: usize) -> (r: Self)
        ensures
            r.available_devices == device_paths@.len(),
            r.required_threshold == required_threshold,
            r.can_read_data == (device_paths@.len() >= required_threshold),
            r.missing_devices == if device_paths@.len() < required_threshold {
                required_threshold - device_paths@.len()
            } else {
                0
            },
            r.device_paths == device_paths,
    {
        let available_devices = device_paths.len();
        let can_read_data = available_devices >= required_threshold;
        let missing_devices = if available_devices < required_threshold {
            required_threshold - available_devices
        } else {
            0
        };
        StorageStatus { available_devices, required_threshold, can_read_data, missing_devices, device_paths }
    }
}

} // verus!
