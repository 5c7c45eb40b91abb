use gpu_runtime::gpu::{list_devices_from_infos, ping_response_from_info, GpuDesc};
use gpu_runtime::jsonout::{
    encode_event, encode_jobs_result, encode_response_error, encode_response_result,
};
use serde_json::Value;

#[test]
fn writes_responses_and_events() {
    let response = encode_response_result(1, "{\"ok\":true}");
    let event = encode_event("log", "hello");
    let first: Value = serde_json::from_str(&response).unwrap();
    assert_eq!(first["id"], 1);
    assert_eq!(first["result"]["ok"], true);
    let second: Value = serde_json::from_str(&event).unwrap();
    assert_eq!(second["event"], "log");
    assert_eq!(second["payload"], "hello");
}

#[test]
fn encodes_error_responses() {
    let line = encode_response_error(7, "boom \"quoted\"\nnext");
    let v: Value = serde_json::from_str(&line).unwrap();
    assert_eq!(v["id"], 7);
    assert_eq!(v["error"]["message"], "boom \"quoted\"\nnext");
    assert!(v.get("result").is_none());
}

#[test]
fn encodes_jobs_result() {
    let outputs = vec!["a.srt".to_owned(), "b dir/b.srt".to_owned()];
    let json = encode_jobs_result(&outputs);
    assert_eq!(json, "{\"jobs\":2,\"outputs\":[\"a.srt\",\"b dir/b.srt\"]}");
    let empty: Vec<String> = Vec::new();
    assert_eq!(encode_jobs_result(&empty), "{\"jobs\":0,\"outputs\":[]}");
}

#[test]
fn formats_ping_and_device_responses() {
    let info = GpuDesc {
        name: "GPU".to_owned(),
        vendor: 1,
        device: 2,
        device_type: "DiscreteGpu".to_owned(),
        backend: "Vulkan".to_owned(),
        driver: "drv".to_owned(),
        driver_info: "info".to_owned(),
    };
    let gpu: Value = serde_json::from_str(&ping_response_from_info(Some(info))).unwrap();
    assert_eq!(gpu["gpu_enabled"], true);
    assert_eq!(gpu["gpu_name"], "GPU");
    assert_eq!(gpu["message"], "Runtime ready");
    let cpu: Value = serde_json::from_str(&ping_response_from_info(None)).unwrap();
    assert_eq!(cpu["gpu_enabled"], false);
    assert!(cpu["gpu_name"].is_null());

    let info = GpuDesc {
        name: "GPU".to_owned(),
        vendor: 1,
        device: 2,
        device_type: "DiscreteGpu".to_owned(),
        backend: "Vulkan".to_owned(),
        driver: "drv".to_owned(),
        driver_info: "info".to_owned(),
    };
    let list: Value = serde_json::from_str(&list_devices_from_infos(vec![info])).unwrap();
    assert_eq!(list["devices"][0]["name"], "GPU");
    assert_eq!(list["devices"][0]["vendor"], 1);
    assert_eq!(list["devices"][0]["device"], 2);
}

#[test]
fn escapes_control_characters_as_serde_json_does() {
    let line = encode_event("log", "a\u{1}b\tc");
    let reference = serde_json::to_string(&serde_json::Value::String("a\u{1}b\tc".to_owned()))
        .unwrap();
    assert!(line.contains(&reference[1..reference.len() - 1]));
    let v: Value = serde_json::from_str(&line).unwrap();
    assert_eq!(v["payload"], "a\u{1}b\tc");
}
