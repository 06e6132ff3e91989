//! What the processor is called.

use vstd::prelude::*;
use vstd::string::*;

use crate::device::{Caps, DeviceInfo, DeviceKind};
use crate::text::{cat4, dec, decimal, join_text, joined, own, texts};

verus! {

/// The vector extensions that matter for speed.
#[derive(Debug, Clone, Copy)]
pub struct Features {
    pub avx512: bool,
    pub avx2: bool,
    /// Integer dot products, in either encoding.
    pub vnni: bool,
}

/// The extensions that are named: the widest vectors, and the dot products.
pub open spec fn feature_names(f: Features) -> Seq<Seq<char>> {
    (if f.avx512 {
        seq!["AVX-512"@]
    } else if f.avx2 {
        seq!["AVX2"@]
    } else {
        Seq::empty()
    }) + (if f.vnni {
        seq!["VNNI"@]
    } else {
        Seq::empty()
    })
}

/// The name of a processor: its architecture, its extensions and its threads.
pub open spec fn label_of(arch: Seq<char>, f: Features, threads: nat) -> Seq<char> {
    let names = feature_names(f);
    if names.len() == 0 {
        arch + " ("@ + dec(threads) + " threads)"@
    } else {
        arch + " "@ + joined(names, "+"@) + " ("@ + dec(threads) + " threads)"@
    }
}

/// The name of a processor.
pub fn cpu_label(arch: &str, f: Features, threads: usize) -> (r: String)
    ensures
        r@ == label_of(arch@, f, threads as nat),
{
    let mut names: Vec<String> = Vec::new();
    if f.avx512 {
        names.push(own("AVX-512"));
    } else if f.avx2 {
        names.push(own("AVX2"));
    }
    if f.vnni {
        names.push(own("VNNI"));
    }
    assert(texts(names@) =~= feature_names(f));
    assert(texts(names@).len() == names@.len());
    if names.len() == 0 {
        cat4(arch, " (", decimal(threads as u64).as_str(), " threads)")
    } else {
        let mut s = cat4(arch, " ", join_text(names.as_slice(), "+").as_str(), " (");
        s.append(decimal(threads as u64).as_str());
        s.append(" threads)");
        s
    }
}

/// What a machine is taken to have: a floor, not a measurement. It is only reported.
pub const TOTAL_RAM: u64 = 17_179_869_184;

/// What is reported of the processor.
pub fn device_info(name: String, threads: u32) -> (r: DeviceInfo)
    ensures
        r.kind == DeviceKind::Cpu,
        r.index == 0,
        r.name@ == name@,
        r.total_memory == TOTAL_RAM,
        r.free_memory == TOTAL_RAM,
        r.caps == (Caps {
            int8_dot: true,
            f16_math: false,
            matrix_cores: false,
            max_threads_per_block: threads,
            shared_mem_per_block: 0,
            warp_size: 1,
            multiprocessors: threads,
        }),
{
    DeviceInfo {
        kind: DeviceKind::Cpu,
        index: 0,
        name,
        total_memory: TOTAL_RAM,
        free_memory: TOTAL_RAM,
        caps: Caps {
            int8_dot: true,
            f16_math: false,
            matrix_cores: false,
            max_threads_per_block: threads,
            shared_mem_per_block: 0,
            warp_size: 1,
            multiprocessors: threads,
        },
    }
}

} // verus!
