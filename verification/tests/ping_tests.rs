use valve_server_manager::firewall::MockCommandExecutor;
use valve_server_manager::ping::{
    parse_ping_time, ping_batches, ping_ip_with_executor, ping_targets, relay_host, reply_time,
};
use valve_server_manager::firewall::CommandOutput;
use valve_server_manager::sdr::{PoP, PopMap, Relay};

/// What the reading is when computed with `f32`, as `ping` output is read.
fn float_reading(number: &str) -> Option<u16> {
    number.parse::<f32>().ok().map(|v| v.round() as u16)
}

#[test]
fn test_parse_ping_time_linux() {
    let sample = "64 bytes from 155.133.248.36: icmp_seq=1 ttl=57 time=15.4 ms";
    assert_eq!(parse_ping_time(sample), Some(15));
}

#[test]
fn test_parse_ping_time_windows() {
    let sample = "Reply from 155.133.248.36: bytes=32 time=42ms TTL=57";
    assert_eq!(parse_ping_time(sample), Some(42));
}

#[test]
fn ping_time_needs_the_marker_and_a_number() {
    assert_eq!(parse_ping_time("Request timed out."), None);
    assert_eq!(parse_ping_time("time<1ms"), None);
    assert_eq!(parse_ping_time("time=ms"), None);
    assert_eq!(parse_ping_time("time=."), None);
    assert_eq!(parse_ping_time("time=1.2.3 ms"), None);
    assert_eq!(parse_ping_time("time=5. ms"), Some(5));
    assert_eq!(parse_ping_time("time=.5 ms"), Some(1));
}

#[test]
fn ping_time_uses_the_first_marker() {
    assert_eq!(parse_ping_time("time=7 time=9"), Some(7));
    assert_eq!(parse_ping_time("xtime=3"), Some(3));
}

#[test]
fn ping_time_rounds_and_saturates() {
    assert_eq!(parse_ping_time("time=2.5"), Some(3));
    assert_eq!(parse_ping_time("time=2.4999"), Some(2));
    assert_eq!(parse_ping_time("time=0.49999999999"), Some(1));
    assert_eq!(parse_ping_time("time=65535"), Some(65535));
    assert_eq!(parse_ping_time("time=70000.2"), Some(65535));
    assert_eq!(parse_ping_time("time=0"), Some(0));
}

#[test]
fn ping_time_agrees_with_f32_reading() {
    let mut numbers: Vec<String> = Vec::new();
    for whole in ["0", "1", "2", "15", "59", "60", "149", "150", "999", "1024", "4095", "65534", "65535", "99999"] {
        for frac in [
            "", "0", "4", "49", "5", "50", "51", "499999", "4999999", "49999999", "499999999", "4999999999",
            "49999997", "49999998", "4999999701976776", "49999994039535522460937500", "499999940395355224609375",
            "4999999403955", "49999994", "4999999105930328369140625", "9", "999999999",
        ] {
            numbers.push(format!("{}.{}", whole, frac));
            numbers.push(format!("{}{}", whole, frac));
        }
    }
    let mut seed: u64 = 0x1234_5678;
    for _ in 0..2000 {
        seed = seed.wrapping_mul(6364136223846793005).wrapping_add(1442695040888963407);
        let whole = (seed >> 33) % 70000;
        seed = seed.wrapping_mul(6364136223846793005).wrapping_add(1442695040888963407);
        let frac = (seed >> 20) % 1_000_000_000;
        let digits = (seed % 9 + 1) as usize;
        let frac_text = format!("{:09}", frac);
        numbers.push(format!("{}.{}", whole, &frac_text[..digits]));
    }
    for n in numbers {
        let line = format!("64 bytes from 1.2.3.4: icmp_seq=1 ttl=57 time={} ms", n);
        assert_eq!(parse_ping_time(&line), float_reading(&n), "reading {}", n);
    }
}

#[test]
fn relay_host_drops_the_prefix_length() {
    assert_eq!(relay_host("192.69.96.0/22"), "192.69.96.0");
    assert_eq!(relay_host("155.133.248.36"), "155.133.248.36");
    assert_eq!(relay_host("/8"), "");
}

#[test]
fn ping_targets_use_the_first_relay() {
    let mut pops = PopMap::new();
    pops.insert(
        "sea".to_string(),
        PoP {
            desc: "Seattle".to_string(),
            aliases: None,
            relays: Some(vec![
                Relay { ipv4: "192.69.96.0/22".to_string(), port_range: None },
                Relay { ipv4: "10.0.0.0/8".to_string(), port_range: None },
            ]),
        },
    );
    pops.insert("nul".to_string(), PoP { desc: "None".to_string(), aliases: None, relays: Some(vec![]) });
    pops.insert("abc".to_string(), PoP { desc: "Absent".to_string(), aliases: None, relays: None });
    let targets = ping_targets(&pops);
    assert_eq!(targets, vec![("sea".to_string(), "192.69.96.0".to_string())]);
}

#[test]
fn ping_batches_hold_five_targets() {
    let targets: Vec<(String, String)> = (0..12).map(|i| (format!("p{}", i), format!("10.0.0.{}", i))).collect();
    let batches = ping_batches(targets.clone());
    assert_eq!(batches.iter().map(|b| b.len()).collect::<Vec<_>>(), vec![5, 5, 2]);
    let flat: Vec<(String, String)> = batches.into_iter().flatten().collect();
    assert_eq!(flat, targets);
    assert!(ping_batches(Vec::new()).is_empty());
}

#[test]
fn pinging_reads_the_reply_of_the_executor() {
    let mut mock = MockCommandExecutor::new();
    mock.mock_stdout = "Reply from 192.69.96.0: bytes=32 time=12ms TTL=57".to_string();
    let (time, _) = ping_ip_with_executor("192.69.96.0", false, &mut mock);
    assert_eq!(time, Some(12));
    assert_eq!(mock.commands, vec!["ping -c 1 -W 1 192.69.96.0".to_string()]);
    let (_, _) = ping_ip_with_executor("192.69.96.0", true, &mut mock);
    assert_eq!(mock.commands[1], "ping -n 1 -w 1000 192.69.96.0");
    mock.mock_success = false;
    let (failed, _) = ping_ip_with_executor("192.69.96.0", false, &mut mock);
    assert_eq!(failed, None);
}

#[test]
fn reply_time_needs_a_successful_reply() {
    let ok = Ok(CommandOutput { success: true, stdout: "time=33.7 ms".to_string() });
    assert_eq!(reply_time(&ok), Some(34));
    let failed = Ok(CommandOutput { success: false, stdout: "time=33.7 ms".to_string() });
    assert_eq!(reply_time(&failed), None);
    assert_eq!(reply_time(&Err("no ping".to_string())), None);
}

#[test]
fn ping_time_agrees_with_f32_at_rounding_boundaries() {
    for n in [0u32, 1, 2, 3, 7, 8, 15, 16, 100, 127, 128, 255, 256, 1000, 4096, 8191, 16384, 32767, 32768, 65533, 65534] {
        let e = if n == 0 { -2 } else { 31 - n.leading_zeros() as i32 };
        let gap = 2f64.powi(e - 24);
        let boundary = n as f64 + 0.5 - gap;
        for x in [boundary, boundary - gap / 64.0, boundary + gap / 64.0, n as f64 + 0.5, boundary - gap] {
            let text = format!("{:.40}", x);
            let line = format!("time={} ms", text);
            assert_eq!(parse_ping_time(&line), float_reading(&text), "reading {}", text);
        }
    }
}
