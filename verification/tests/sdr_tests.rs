use valve_server_manager::sdr::{
    get_fallback_sdr_config, get_region_for_pop, region_of_lowercase, PoP, PopMap, Relay, SdrConfig,
};

fn relay(ipv4: &str) -> Relay {
    Relay { ipv4: ipv4.to_string(), port_range: None }
}

fn pop(desc: &str, relays: Option<Vec<Relay>>) -> PoP {
    PoP { desc: desc.to_string(), aliases: None, relays }
}

/// Builds the configuration the way the JSON document describes it
/// (`success`, `pops` with `desc`, optional `aliases` and `relays`).
fn config_from_json(json: &str) -> Result<SdrConfig, String> {
    let value: serde_json::Value = serde_json::from_str(json).map_err(|e| e.to_string())?;
    let success = value["success"].as_bool().ok_or("success")?;
    let mut pops = PopMap::new();
    for (code, p) in value["pops"].as_object().ok_or("pops")? {
        let desc = p["desc"].as_str().ok_or("desc")?.to_string();
        let relays = p.get("relays").and_then(|r| r.as_array()).map(|rs| {
            rs.iter()
                .map(|r| Relay { ipv4: r["ipv4"].as_str().unwrap_or("").to_string(), port_range: None })
                .collect::<Vec<_>>()
        });
        pops.insert(code.clone(), PoP { desc, aliases: None, relays });
    }
    Ok(SdrConfig { pops, success })
}

#[test]
fn test_fallback_sdr_config_parsing() {
    let pops = get_fallback_sdr_config();
    assert!(!pops.is_empty(), "Fallback PoPs map should not be empty");

    assert!(pops.contains_key("sea"), "Should contain Seattle (sea) relay");
    assert!(pops.contains_key("fra"), "Should contain Frankfurt (fra) relay");

    let sea_pop = pops.get("sea").unwrap();
    assert!(sea_pop.desc.contains("Seattle"));

    assert!(sea_pop.relays.is_some());
    assert!(!sea_pop.relays.as_ref().unwrap().is_empty());
}

#[test]
fn test_region_mapping() {
    assert_eq!(get_region_for_pop("sea"), "North America");
    assert_eq!(get_region_for_pop("fra"), "Europe");
    assert_eq!(get_region_for_pop("hkg"), "Asia");
    assert_eq!(get_region_for_pop("syd"), "Oceania");
    assert_eq!(get_region_for_pop("gru"), "South America");
    assert_eq!(get_region_for_pop("jnb"), "Africa");
    assert_eq!(get_region_for_pop("xyz"), "Other / Unknown");
}

#[test]
fn region_mapping_ignores_letter_case() {
    assert_eq!(get_region_for_pop("SEA"), "North America");
    assert_eq!(get_region_for_pop("Ams2"), "Europe");
    assert_eq!(get_region_for_pop("PVG"), "Asia");
    // the case-sensitive lookup does not lower-case by itself
    assert_eq!(region_of_lowercase("SEA"), "Other / Unknown");
    assert_eq!(region_of_lowercase("sea"), "North America");
}

#[test]
fn region_mapping_covers_every_list() {
    for code in ["ord2", "lax2", "eat", "den"] {
        assert_eq!(get_region_for_pop(code), "North America");
    }
    for code in ["sto2", "fsn", "waw", "lhr"] {
        assert_eq!(get_region_for_pop(code), "Europe");
    }
    for code in ["tgdu", "maa2", "pww", "shb"] {
        assert_eq!(get_region_for_pop(code), "Asia");
    }
    for code in ["lim2", "eze", "bue"] {
        assert_eq!(get_region_for_pop(code), "South America");
    }
    for code in ["akl2", "syd2"] {
        assert_eq!(get_region_for_pop(code), "Oceania");
    }
    for code in ["cpt2", "cpt"] {
        assert_eq!(get_region_for_pop(code), "Africa");
    }
    for code in ["", "se", "seaa", "ctu"] {
        assert_eq!(get_region_for_pop(code), "Other / Unknown");
    }
}

#[test]
fn test_parse_sdr_config_empty_relays() {
    let sample = r#"{
        "success": true,
        "pops": {
            "ctu": {
                "desc": "Chengdu",
                "relays": []
            },
            "sea": {
                "desc": "Seattle",
                "relays": [
                    {
                        "ipv4": "192.69.96.0/22"
                    }
                ]
            }
        }
    }"#;
    let pops = config_from_json(sample).unwrap().into_usable_pops();
    assert!(!pops.contains_key("ctu"), "ctu should be filtered out because relays are empty");
    assert!(pops.contains_key("sea"), "sea should be kept because it has relays");
}

#[test]
fn usable_pops_drop_pops_without_relay_list() {
    let mut pops = PopMap::new();
    pops.insert("abc".to_string(), pop("No relays", None));
    pops.insert("sea".to_string(), pop("Seattle", Some(vec![relay("192.69.96.0/22")])));
    pops.insert("emp".to_string(), pop("Empty", Some(vec![])));
    pops.insert("fra".to_string(), pop("Frankfurt", Some(vec![relay("155.133.226.0/24")])));
    let usable = SdrConfig { pops, success: true }.into_usable_pops();
    assert_eq!(usable.codes(), vec!["sea".to_string(), "fra".to_string()]);
    assert_eq!(usable.len(), 2);
}

#[test]
fn pop_map_insert_replaces_and_get_reads_back() {
    let mut pops = PopMap::new();
    assert!(pops.is_empty());
    pops.insert("sea".to_string(), pop("Seattle", None));
    pops.insert("fra".to_string(), pop("Frankfurt", None));
    pops.insert("sea".to_string(), pop("Seattle (Washington)", None));
    assert_eq!(pops.len(), 2);
    assert_eq!(pops.get("sea").unwrap().desc, "Seattle (Washington)");
    assert_eq!(pops.get("fra").unwrap().desc, "Frankfurt");
    assert!(pops.get("ams").is_none());
    assert_eq!(pops.codes(), vec!["sea".to_string(), "fra".to_string()]);
}

#[test]
fn fallback_holds_the_known_subnets() {
    let pops = get_fallback_sdr_config();
    assert_eq!(pops.codes(), vec!["sea".to_string(), "fra".to_string()]);
    let fra = pops.get("fra").unwrap();
    assert_eq!(fra.relays.as_ref().unwrap()[0].ipv4, "155.133.226.0/24");
    let sea = pops.get("sea").unwrap();
    assert_eq!(sea.relays.as_ref().unwrap()[0].ipv4, "192.69.96.0/22");
}
