use mcmanage::versions::{Latest, McVersion, PackagesList, ReleaseType};
use mcmanage::webui::{Checked, NewServer};

fn entry(id: &str, release_type: ReleaseType) -> McVersion {
    McVersion {
        id: id.to_string(),
        release_type,
        url: format!("https://example.invalid/{}.json", id),
        time: "2024-01-01T00:00:00+00:00".to_string(),
        release_time: "2024-01-01T00:00:00+00:00".to_string(),
    }
}

fn catalogue() -> PackagesList {
    PackagesList {
        latest: Latest { release: "1.21".to_string(), snapshot: "24w01a".to_string() },
        versions: vec![
            entry("24w01a", ReleaseType::Snapshot),
            entry("1.21", ReleaseType::Release),
            entry("1.20.6", ReleaseType::Release),
        ],
    }
}

#[test]
fn get_version_finds_the_named_entry() {
    let packages = catalogue();
    let found = packages.get_version("1.20.6");
    assert_eq!(found.id, "1.20.6");
    assert_eq!(found.url, "https://example.invalid/1.20.6.json");
}

#[test]
fn get_latest_release_follows_the_latest_name() {
    let packages = catalogue();
    let found = packages.get_latest_release();
    assert_eq!(found.id, "1.21");
    assert!(matches!(found.release_type, ReleaseType::Release));
}

#[test]
fn checkbox_reads_as_bool() {
    assert!(bool::from(Checked::On));
    assert!(!bool::from(Checked::Off));
}

#[test]
fn eula_acceptance_requires_a_ticked_box() {
    let ticked = NewServer {
        servername: "a".to_string(),
        version: "1.21".to_string(),
        eula: Some(Checked::On),
    };
    let unticked = NewServer {
        servername: "b".to_string(),
        version: "1.21".to_string(),
        eula: Some(Checked::Off),
    };
    let absent = NewServer {
        servername: "c".to_string(),
        version: "1.21".to_string(),
        eula: None,
    };
    assert!(ticked.eula_accepted());
    assert!(!unticked.eula_accepted());
    assert!(!absent.eula_accepted());
}
