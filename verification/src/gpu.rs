//! Encoding of the adapter-probe replies. The adapter facts arrive as plain
//! values; what follows is exact JSON text with keys in sorted order.

use vstd::prelude::*;
use crate::jsonout::{json_str, push_json_str};
use crate::text::{chars_string, push_dec, push_str_chars, dec_spec};

verus! {

/// Plain description of one graphics adapter.
pub struct GpuDesc {
    pub name: String,
    pub vendor: u32,
    pub device: u32,
    pub device_type: String,
    pub backend: String,
    pub driver: String,
    pub driver_info: String,
}

/// Abstract view of an adapter description.
pub ghost struct GpuDescV {
    pub name: Seq<char>,
    pub vendor: int,
    pub device: int,
    pub device_type: Seq<char>,
    pub backend: Seq<char>,
    pub driver: Seq<char>,
    pub driver_info: Seq<char>,
}

impl View for GpuDesc {
    type V = GpuDescV;

    open spec fn view(&self) -> GpuDescV {
        GpuDescV {
            name: self.name@,
            vendor: self.vendor as int,
            device: self.device as int,
            device_type: self.device_type@,
            backend: self.backend@,
            driver: self.driver@,
            driver_info: self.driver_info@,
        }
    }
}

/// The readiness reply: adapter facts when one was found, the CPU fallback
/// otherwise.
pub open spec fn ping_json(info: Option<GpuDescV>) -> Seq<char> {
    match info {
        Some(d) => seq!['{'] + json_str("gpu_backend"@) + seq![':'] + json_str(d.backend) + seq![
            ',',
        ] + json_str("gpu_enabled"@) + seq![':'] + "true"@ + seq![','] + json_str("gpu_name"@)
            + seq![':'] + json_str(d.name) + seq![','] + json_str("gpu_type"@) + seq![':']
            + json_str(d.device_type) + seq![','] + json_str("message"@) + seq![':'] + json_str(
            "Runtime ready"@,
        ) + seq!['}'],
        None => seq!['{'] + json_str("gpu_backend"@) + seq![':'] + json_str("CPU"@) + seq![',']
            + json_str("gpu_enabled"@) + seq![':'] + "false"@ + seq![','] + json_str("gpu_name"@)
            + seq![':'] + "null"@ + seq![','] + json_str("gpu_type"@) + seq![':'] + json_str(
            "Cpu"@,
        ) + seq![','] + json_str("message"@) + seq![':'] + json_str("Runtime ready (CPU fallback)"@)
            + seq!['}'],
    }
}

/// Encode the readiness reply for an optional adapter.
pub fn ping_response_from_info(info: Option<GpuDesc>) -> (r: String)
    ensures
        r@ == ping_json(match info {
            Some(d) => Some(d@),
            None => None,
        }),
{
    let mut out: Vec<char> = Vec::new();
    out.push('{');
    push_json_str(&mut out, "gpu_backend");
    out.push(':');
    match &info {
        Some(d) => {
            push_json_str(&mut out, d.backend.as_str());
            out.push(',');
            push_json_str(&mut out, "gpu_enabled");
            out.push(':');
            push_str_chars(&mut out, "true");
            out.push(',');
            push_json_str(&mut out, "gpu_name");
            out.push(':');
            push_json_str(&mut out, d.name.as_str());
            out.push(',');
            push_json_str(&mut out, "gpu_type");
            out.push(':');
            push_json_str(&mut out, d.device_type.as_str());
            out.push(',');
            push_json_str(&mut out, "message");
            out.push(':');
            push_json_str(&mut out, "Runtime ready");
            out.push('}');
            assert(out@ =~= ping_json(Some(d@)));
        },
        None => {
            push_json_str(&mut out, "CPU");
            out.push(',');
            push_json_str(&mut out, "gpu_enabled");
            out.push(':');
            push_str_chars(&mut out, "false");
            out.push(',');
            push_json_str(&mut out, "gpu_name");
            out.push(':');
            push_str_chars(&mut out, "null");
            out.push(',');
            push_json_str(&mut out, "gpu_type");
            out.push(':');
            push_json_str(&mut out, "Cpu");
            out.push(',');
            push_json_str(&mut out, "message");
            out.push(':');
            push_json_str(&mut out, "Runtime ready (CPU fallback)");
            out.push('}');
            assert(out@ =~= ping_json(None::<GpuDescV>));
        },
    }
    chars_string(&out)
}

/// One device entry of the device-list reply.
pub open spec fn device_json(d: GpuDescV) -> Seq<char> {
    seq!['{'] + json_str("backend"@) + seq![':'] + json_str(d.backend) + seq![','] + json_str(
        "device"@,
    ) + seq![':'] + dec_spec(d.device as nat) + seq![','] + json_str("device_type"@) + seq![':']
        + json_str(d.device_type) + seq![','] + json_str("driver"@) + seq![':'] + json_str(d.driver)
        + seq![','] + json_str("driver_info"@) + seq![':'] + json_str(d.driver_info) + seq![',']
        + json_str("name"@) + seq![':'] + json_str(d.name) + seq![','] + json_str("vendor"@)
        + seq![':'] + dec_spec(d.vendor as nat) + seq!['}']
}

/// The comma-separated device entries.
pub open spec fn devices_array(ds: Seq<GpuDescV>) -> Seq<char>
    decreases ds.len(),
{
    if ds.len() == 0 {
        Seq::empty()
    } else if ds.len() == 1 {
        device_json(ds[0])
    } else {
        devices_array(ds.drop_last()) + seq![','] + device_json(ds.last())
    }
}

/// The device-list reply: `{"devices":[..]}`.
pub open spec fn devices_json(ds: Seq<GpuDescV>) -> Seq<char> {
    seq!['{'] + json_str("devices"@) + seq![':', '['] + devices_array(ds) + seq![']', '}']
}

#[verifier::rlimit(100)]
fn push_device(out: &mut Vec<char>, d: &GpuDesc)
    ensures
        final(out)@ == old(out)@ + device_json(d@),
{
    let ghost before = out@;
    out.push('{');
    push_json_str(out, "backend");
    out.push(':');
    push_json_str(out, d.backend.as_str());
    out.push(',');
    push_json_str(out, "device");
    out.push(':');
    push_dec(d.device as u64, out);
    out.push(',');
    push_json_str(out, "device_type");
    out.push(':');
    push_json_str(out, d.device_type.as_str());
    out.push(',');
    push_json_str(out, "driver");
    out.push(':');
    push_json_str(out, d.driver.as_str());
    out.push(',');
    push_json_str(out, "driver_info");
    out.push(':');
    push_json_str(out, d.driver_info.as_str());
    out.push(',');
    push_json_str(out, "name");
    out.push(':');
    push_json_str(out, d.name.as_str());
    out.push(',');
    push_json_str(out, "vendor");
    out.push(':');
    push_dec(d.vendor as u64, out);
    out.push('}');
    assert(out@ =~= before + device_json(d@));
}

/// Encode the device-list reply.
pub fn list_devices_from_infos(infos: Vec<GpuDesc>) -> (r: String)
    ensures
        r@ == devices_json(Seq::new(infos@.len(), |i: int| infos@[i]@)),
{
    let ghost ds = Seq::new(infos@.len(), |i: int| infos@[i]@);
    let mut out: Vec<char> = Vec::new();
    out.push('{');
    push_json_str(&mut out, "devices");
    out.push(':');
    out.push('[');
    let ghost mark = out@;
    let n = infos.len();
    let mut i: usize = 0;
    while i < n
        invariant
            0 <= i <= n == infos@.len(),
            ds == Seq::new(infos@.len(), |k: int| infos@[k]@),
            out@ == mark + devices_array(ds.subrange(0, i as int)),
        decreases n - i,
    {
        let ghost before = out@;
        if i > 0 {
            out.push(',');
        }
        push_device(&mut out, &infos[i]);
        proof {
            let cur = ds.subrange(0, i + 1);
            assert(cur.drop_last() =~= ds.subrange(0, i as int));
            assert(cur.last() == infos@[i as int]@);
            if i == 0 {
                assert(devices_array(ds.subrange(0, 0)) == Seq::<char>::empty());
                assert(devices_array(cur) == device_json(infos@[0]@));
                assert(out@ =~= mark + devices_array(cur));
            } else {
                assert(devices_array(cur) == devices_array(ds.subrange(0, i as int)) + seq![',']
                    + device_json(infos@[i as int]@));
                assert(out@ =~= mark + devices_array(cur));
            }
        }
        i = i + 1;
    }
    assert(ds.subrange(0, n as int) =~= ds);
    out.push(']');
    out.push('}');
    assert(out@ =~= devices_json(ds));
    chars_string(&out)
}

} // verus!
