//! What a sync does with the Windows pairing records: for each adapter's
//! record, in key order, the host IRK, the Classic link keys and the LE
//! device records, each with the outcome of reading it.
use vstd::prelude::*;
use crate::address::mac_spec;
use crate::bonds::{
    Adapter, adapter_of, adapter_spec, local_irk, local_irk_spec, classic_entry, ClassicEntry,
    ble_device_of, ble_device_spec, ble_entry, ble_spec, ble_model, BleEntry, BleBond, BleModel,
    BleOutcome,
};
use crate::registry::{Registry, Values, RegValue, registry_wf};
use crate::strmap::sorted_keys;

verus! {

/// One piece of work found among an adapter's pairing records.
pub enum SyncStep {
    /// Store the Windows host's IRK as the adapter's local IRK.
    LocalIrk(Vec<u8>),
    /// Write the Classic bond held in the adapter record's value `name`.
    Classic { name: String, device: String, link_key: Vec<u8> },
    /// Write the LE bond held in the device record at position `record`.
    Ble { record: usize, device_raw: String, bond: BleBond },
    /// A malformed record, counted as skipped.
    Invalid,
    /// An LE record whose address type BlueZ cannot use, counted as skipped.
    Unsupported(String),
    /// An LE record whose random address is not a static identity, counted as skipped.
    NotStatic(String),
}

/// A step as plain values.
pub enum StepModel {
    LocalIrk(Seq<u8>),
    Classic { name: Seq<char>, device: Seq<char>, link_key: Seq<u8> },
    Ble { record: int, device_raw: Seq<char>, bond: BleModel },
    Invalid,
    Unsupported(Seq<char>),
    NotStatic(Seq<char>),
}

pub open spec fn step_model(s: SyncStep) -> StepModel {
    match s {
        SyncStep::LocalIrk(k) => StepModel::LocalIrk(k@),
        SyncStep::Classic { name, device, link_key } => StepModel::Classic {
            name: name@,
            device: device@,
            link_key: link_key@,
        },
        SyncStep::Ble { record, device_raw, bond } => StepModel::Ble {
            record: record as int,
            device_raw: device_raw@,
            bond: ble_model(&bond),
        },
        SyncStep::Invalid => StepModel::Invalid,
        SyncStep::Unsupported(i) => StepModel::Unsupported(i@),
        SyncStep::NotStatic(i) => StepModel::NotStatic(i@),
    }
}

pub open spec fn step_models(s: Seq<SyncStep>) -> Seq<StepModel> {
    s.map_values(|x: SyncStep| step_model(x))
}

/// What one value of an adapter's record gives: nothing unless it is named
/// by an address and binary; a skip unless it is 16 bytes long.
pub open spec fn classic_step(name: Seq<char>, value: RegValue) -> Seq<StepModel> {
    match mac_spec(name) {
        None => Seq::empty(),
        Some(device) => match value {
            RegValue::Bytes(k) => if k@.len() != 16 {
                seq![StepModel::Invalid]
            } else {
                seq![StepModel::Classic { name, device, link_key: k@ }]
            },
            RegValue::Dword(_) => Seq::empty(),
        },
    }
}

/// The Classic steps of the first `n` values, in name order.
pub open spec fn classic_steps(v: Map<Seq<char>, RegValue>, ks: Seq<Seq<char>>, n: int) -> Seq<StepModel>
    decreases n,
{
    if n <= 0 {
        Seq::empty()
    } else {
        classic_steps(v, ks, n - 1) + classic_step(ks[n - 1], v[ks[n - 1]])
    }
}

/// What the record `section` (at position `k`) gives for the adapter `raw`:
/// nothing unless it is a device record directly under the adapter's.
pub open spec fn ble_step(k: int, section: Seq<char>, values: Values, prefix: Seq<char>, raw: Seq<char>) -> Seq<StepModel> {
    match ble_device_spec(section, prefix, raw) {
        None => Seq::empty(),
        Some(d) => match ble_spec(d, &values) {
            BleOutcome::NotDevice => Seq::empty(),
            BleOutcome::Invalid => seq![StepModel::Invalid],
            BleOutcome::Unsupported(i) => seq![StepModel::Unsupported(i)],
            BleOutcome::NotStatic(i) => seq![StepModel::NotStatic(i)],
            BleOutcome::Bond(b) => seq![StepModel::Ble { record: k, device_raw: d, bond: b }],
        },
    }
}

/// The LE steps of the first `n` records, in key order.
pub open spec fn ble_steps(m: Map<Seq<char>, Values>, ks: Seq<Seq<char>>, prefix: Seq<char>, raw: Seq<char>, n: int) -> Seq<StepModel>
    decreases n,
{
    if n <= 0 {
        Seq::empty()
    } else {
        ble_steps(m, ks, prefix, raw, n - 1) + ble_step(n - 1, ks[n - 1], m[ks[n - 1]], prefix, raw)
    }
}

/// An adapter's steps: its host IRK, then its Classic link keys, then its
/// LE device records.
pub open spec fn adapter_steps(m: Map<Seq<char>, Values>, values: Values, prefix: Seq<char>, raw: Seq<char>) -> Seq<StepModel> {
    let irk = match local_irk_spec(&values) {
        Some(k) => seq![StepModel::LocalIrk(k)],
        None => Seq::empty(),
    };
    let cks = sorted_keys(values@);
    let rks = sorted_keys(m);
    irk + classic_steps(values@, cks, cks.len() as int) + ble_steps(m, rks, prefix, raw, rks.len() as int)
}

/// The work found for one adapter.
pub struct AdapterWork {
    /// The position of the adapter's record.
    pub record: usize,
    pub adapter: Adapter,
    pub steps: Vec<SyncStep>,
}

/// An adapter's work as plain values.
pub struct WorkModel {
    pub record: int,
    pub raw: Seq<char>,
    pub address: Seq<char>,
    pub steps: Seq<StepModel>,
}

pub open spec fn work_model(w: AdapterWork) -> WorkModel {
    WorkModel {
        record: w.record as int,
        raw: w.adapter.raw@,
        address: w.adapter.address@,
        steps: step_models(w.steps@),
    }
}

pub open spec fn work_models(s: Seq<AdapterWork>) -> Seq<WorkModel> {
    s.map_values(|x: AdapterWork| work_model(x))
}

/// The work of the first `n` records: one entry per adapter record.
pub open spec fn plan_steps(m: Map<Seq<char>, Values>, ks: Seq<Seq<char>>, prefix: Seq<char>, n: int) -> Seq<WorkModel>
    decreases n,
{
    if n <= 0 {
        Seq::empty()
    } else {
        plan_steps(m, ks, prefix, n - 1) + match adapter_spec(ks[n - 1], prefix) {
            None => Seq::empty(),
            Some((raw, address)) => seq![
                WorkModel {
                    record: n - 1,
                    raw,
                    address,
                    steps: adapter_steps(m, m[ks[n - 1]], prefix, raw),
                },
            ],
        }
    }
}

/// The work a sync finds in the `Keys` records `m` under `prefix`.
pub open spec fn plan_spec(m: Map<Seq<char>, Values>, prefix: Seq<char>) -> Seq<WorkModel> {
    plan_steps(m, sorted_keys(m), prefix, sorted_keys(m).len() as int)
}

proof fn lemma_push_steps(s: Seq<SyncStep>, x: SyncStep)
    ensures
        step_models(s.push(x)) == step_models(s).push(step_model(x)),
{
    assert(step_models(s.push(x)) =~= step_models(s).push(step_model(x)));
}

fn push_step(out: &mut Vec<SyncStep>, x: SyncStep)
    ensures
        step_models(final(out)@) == step_models(old(out)@) + seq![step_model(x)],
{
    proof {
        lemma_push_steps(old(out)@, x);
    }
    let ghost m = step_model(x);
    out.push(x);
    assert(step_models(old(out)@).push(m) =~= step_models(old(out)@) + seq![m]);
}

/// Appends the Classic steps of an adapter's record.
fn push_classic_steps(values: &Values, out: &mut Vec<SyncStep>)
    requires
        values.wf(),
    ensures
        step_models(final(out)@) == step_models(old(out)@)
            + classic_steps(values@, sorted_keys(values@), sorted_keys(values@).len() as int),
{
    proof {
        values.lemma_key_seq();
    }
    let ghost ks = sorted_keys(values@);
    let ghost start = step_models(out@);
    let mut j: usize = 0;
    while j < values.len()
        invariant
            values.wf(),
            values.laid_out(),
            values.key_seq() == ks,
            ks == sorted_keys(values@),
            j <= ks.len(),
            step_models(out@) == start + classic_steps(values@, ks, j as int),
        decreases ks.len() - j,
    {
        let name = values.key_at(j);
        let value = values.value_at(j);
        assert(values@.contains_key(ks[j as int]));
        assert(values@[ks[j as int]] == *value);
        let ghost before = step_models(out@);
        match classic_entry(name.as_str(), value) {
            ClassicEntry::NotDevice => {
                assert(classic_step(name@, *value) =~= Seq::<StepModel>::empty());
                assert(before + Seq::<StepModel>::empty() =~= before);
            },
            ClassicEntry::Invalid => {
                push_step(out, SyncStep::Invalid);
            },
            ClassicEntry::Bond { device, link_key } => {
                let n = name.clone();
                push_step(out, SyncStep::Classic { name: n, device, link_key });
            },
        }
        assert(classic_steps(values@, ks, j + 1) == classic_steps(values@, ks, j as int)
            + classic_step(ks[j as int], values@[ks[j as int]]));
        assert(start + classic_steps(values@, ks, j as int) + classic_step(ks[j as int], values@[ks[j as int]])
            =~= start + classic_steps(values@, ks, j + 1));
        j = j + 1;
    }
}

/// Appends the LE steps of the device records under the adapter `raw`.
fn push_ble_steps(registry: &Registry, prefix: &str, raw: &str, out: &mut Vec<SyncStep>)
    requires
        registry_wf(registry),
    ensures
        step_models(final(out)@) == step_models(old(out)@)
            + ble_steps(registry@, sorted_keys(registry@), prefix@, raw@, sorted_keys(registry@).len() as int),
{
    proof {
        registry.lemma_key_seq();
    }
    let ghost ks = sorted_keys(registry@);
    let ghost start = step_models(out@);
    let mut k: usize = 0;
    while k < registry.len()
        invariant
            registry_wf(registry),
            registry.laid_out(),
            registry.key_seq() == ks,
            ks == sorted_keys(registry@),
            k <= ks.len(),
            step_models(out@) == start + ble_steps(registry@, ks, prefix@, raw@, k as int),
        decreases ks.len() - k,
    {
        let section = registry.key_at(k);
        let values = registry.value_at(k);
        assert(registry@.contains_key(ks[k as int]));
        assert(registry@[ks[k as int]] == *values);
        let ghost before = step_models(out@);
        let ghost step = ble_step(k as int, section@, *values, prefix@, raw@);
        match ble_device_of(section.as_str(), prefix, raw) {
            None => {
                assert(step =~= Seq::<StepModel>::empty());
                assert(before + step =~= before);
            },
            Some(d) => {
                match ble_entry(d.as_str(), values) {
                    BleEntry::NotDevice => {
                        assert(step =~= Seq::<StepModel>::empty());
                        assert(before + step =~= before);
                    },
                    BleEntry::Invalid => {
                        push_step(out, SyncStep::Invalid);
                    },
                    BleEntry::Unsupported(i) => {
                        push_step(out, SyncStep::Unsupported(i));
                    },
                    BleEntry::NotStatic(i) => {
                        push_step(out, SyncStep::NotStatic(i));
                    },
                    BleEntry::Bond(b) => {
                        push_step(out, SyncStep::Ble { record: k, device_raw: d, bond: b });
                    },
                }
            },
        }
        assert(step_models(out@) == before + step);
        assert(ble_steps(registry@, ks, prefix@, raw@, k + 1) == ble_steps(registry@, ks, prefix@, raw@, k as int)
            + ble_step(k as int, ks[k as int], registry@[ks[k as int]], prefix@, raw@));
        assert(start + ble_steps(registry@, ks, prefix@, raw@, k as int) + step
            =~= start + ble_steps(registry@, ks, prefix@, raw@, k + 1));
        k = k + 1;
    }
}

/// Finds the work of a sync in the `Keys` records (see `plan_spec`): for
/// each adapter record in key order, the host IRK, the Classic link keys and
/// the LE device records, each with the outcome of reading it.
pub fn sync_plan(registry: &Registry, keys_prefix: &str) -> (r: Vec<AdapterWork>)
    requires
        registry_wf(registry),
    ensures
        work_models(r@) == plan_spec(registry@, keys_prefix@),
{
    proof {
        registry.lemma_key_seq();
    }
    let ghost ks = sorted_keys(registry@);
    let mut out: Vec<AdapterWork> = Vec::new();
    assert(work_models(out@) =~= Seq::<WorkModel>::empty());
    let mut i: usize = 0;
    while i < registry.len()
        invariant
            registry_wf(registry),
            registry.laid_out(),
            registry.key_seq() == ks,
            ks == sorted_keys(registry@),
            i <= ks.len(),
            work_models(out@) == plan_steps(registry@, ks, keys_prefix@, i as int),
        decreases ks.len() - i,
    {
        let section = registry.key_at(i);
        let values = registry.value_at(i);
        assert(registry@.contains_key(ks[i as int]));
        assert(registry@[ks[i as int]] == *values);
        let ghost before = work_models(out@);
        let ghost tail = match adapter_spec(ks[i as int], keys_prefix@) {
            None => Seq::<WorkModel>::empty(),
            Some((raw, address)) => seq![
                WorkModel {
                    record: i as int,
                    raw,
                    address,
                    steps: adapter_steps(registry@, registry@[ks[i as int]], keys_prefix@, raw),
                },
            ],
        };
        match adapter_of(section.as_str(), keys_prefix) {
            None => {
                assert(tail =~= Seq::<WorkModel>::empty());
                assert(before + tail =~= before);
            },
            Some(adapter) => {
                let mut steps: Vec<SyncStep> = Vec::new();
                assert(step_models(steps@) =~= Seq::<StepModel>::empty());
                let ghost irk = match local_irk_spec(values) {
                    Some(k) => seq![StepModel::LocalIrk(k)],
                    None => Seq::<StepModel>::empty(),
                };
                match local_irk(values) {
                    Some(k) => {
                        push_step(&mut steps, SyncStep::LocalIrk(k));
                    },
                    None => {},
                }
                assert(step_models(steps@) =~= irk);
                push_classic_steps(values, &mut steps);
                push_ble_steps(registry, keys_prefix, adapter.raw.as_str(), &mut steps);
                assert(step_models(steps@) == adapter_steps(registry@, *values, keys_prefix@, adapter.raw@));
                let w = AdapterWork { record: i, adapter, steps };
                let ghost wm = work_model(w);
                assert(wm == tail[0]);
                out.push(w);
                assert(work_models(out@) =~= before.push(wm));
                assert(before.push(wm) =~= before + tail);
            },
        }
        assert(plan_steps(registry@, ks, keys_prefix@, i + 1) == before + tail);
        i = i + 1;
    }
    out
}

} // verus!
