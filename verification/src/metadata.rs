//! A record of the machine that a benchmark ran on. Reading the machine is
//! left to the caller; the record is put together here.

use vstd::prelude::*;

verus! {

/// What is known of the processor.
#[derive(Debug)]
pub struct ProcessorInfo {
    pub processor: String,
    pub base_frequency_hz: u16,
    pub max_frequency_hz: u16,
    pub features: String,
}

impl ProcessorInfo {
    /// The processor as its identification instruction describes it. What the
    /// instruction does not tell is left empty, or zero.
    pub fn from_cpuid(
        brand: Option<String>,
        frequencies: Option<(u16, u16)>,
        features: Option<String>,
    ) -> (info: ProcessorInfo)
        ensures
            info.processor@ == (if brand.is_some() {
                brand.unwrap()@
            } else {
                Seq::<char>::empty()
            }),
            info.base_frequency_hz == (if frequencies.is_some() {
                frequencies.unwrap().0
            } else {
                0u16
            }),
            info.max_frequency_hz == (if frequencies.is_some() {
                frequencies.unwrap().1
            } else {
                0u16
            }),
            info.features@ == (if features.is_some() {
                features.unwrap()@
            } else {
                Seq::<char>::empty()
            }),
    {
        let processor = match brand {
            Some(brand) => brand,
            None => String::new(),
        };
        let (base, max) = match frequencies {
            Some(pair) => pair,
            None => (0, 0),
        };
        let features = match features {
            Some(features) => features,
            None => String::new(),
        };
        ProcessorInfo { processor, base_frequency_hz: base, max_frequency_hz: max, features }
    }

    /// The processor of a machine that cannot be asked.
    pub fn unknown() -> (info: ProcessorInfo)
        ensures
            info.processor@ == "unknown"@,
            info.base_frequency_hz == 0,
            info.max_frequency_hz == 0,
            info.features@ == "unknown"@,
    {
        ProcessorInfo {
            processor: "unknown".to_owned(),
            base_frequency_hz: 0,
            max_frequency_hz: 0,
            features: "unknown".to_owned(),
        }
    }
}

/// What is known of the operating system.
#[derive(Debug)]
pub struct HostInfo {
    pub system: String,
    pub release: String,
    pub version: String,
    pub architecture: String,
}

/// Captures metadata about the machine.
#[derive(Debug)]
pub struct SystemMetadata {
    pub system: String,
    pub release: String,
    pub version: String,
    pub architecture: String,
    pub processor: String,
    pub processor_base_frequency_hz: u16,
    pub processor_max_frequency_hz: u16,
    pub processor_features: String,
    pub processor_cores_logical: u64,
    pub processor_cores_physical: u64,
    pub memory_total_bytes: u64,
}

impl SystemMetadata {
    /// Puts the record together from what was read. A machine that does not
    /// tell its number of physical cores is recorded with none.
    pub fn from_readings(
        host: HostInfo,
        processor: ProcessorInfo,
        cores_logical: u64,
        cores_physical: Option<u64>,
        memory_total_bytes: u64,
    ) -> (metadata: SystemMetadata)
        ensures
            metadata.system == host.system,
            metadata.release == host.release,
            metadata.version == host.version,
            metadata.architecture == host.architecture,
            metadata.processor == processor.processor,
            metadata.processor_base_frequency_hz == processor.base_frequency_hz,
            metadata.processor_max_frequency_hz == processor.max_frequency_hz,
            metadata.processor_features == processor.features,
            metadata.processor_cores_logical == cores_logical,
            metadata.processor_cores_physical == (if cores_physical.is_some() {
                cores_physical.unwrap()
            } else {
                0u64
            }),
            metadata.memory_total_bytes == memory_total_bytes,
    {
        let physical = match cores_physical {
            Some(cores) => cores,
            None => 0,
        };
        SystemMetadata {
            system: host.system,
            release: host.release,
            version: host.version,
            architecture: host.architecture,
            processor: processor.processor,
            processor_base_frequency_hz: processor.base_frequency_hz,
            processor_max_frequency_hz: processor.max_frequency_hz,
            processor_features: processor.features,
            processor_cores_logical: cores_logical,
            processor_cores_physical: physical,
            memory_total_bytes,
        }
    }
}

} // verus!
