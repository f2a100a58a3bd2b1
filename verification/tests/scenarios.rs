use cpufreqd::fs::{Fs, FsError, OpenOptions};
use cpufreqd::memfs::{TestDirEnt, TestFs};
use cpufreqd::path::FsPath;
use cpufreqd::protocol::{
    CpuCores, Information, PerCpuInformation, Request, Response, ScalingType, ServerError,
};
use std::collections::HashMap;

fn p(parts: &[&str]) -> FsPath {
    FsPath::new(parts.iter().map(|s| s.to_string()).collect())
}

#[test]
fn listing_a_seeded_control_directory() {
    let fs = TestFs::new(vec![
        p(&["sys", "class", "cpu0", "governor"]),
        p(&["sys", "class", "cpu0", "freq"]),
    ]);
    let ents = fs.dir(&p(&["sys", "class", "cpu0"])).unwrap();
    assert_eq!(ents.len(), 2);
    assert!(ents.contains(&TestDirEnt::File(p(&["sys", "class", "cpu0", "governor"]))));
    assert!(ents.contains(&TestDirEnt::File(p(&["sys", "class", "cpu0", "freq"]))));
}

#[test]
fn creating_and_reading_a_governor_file() {
    let mut fs = TestFs::new(vec![p(&["sys", "class", "cpu0", "governor"])]);
    let target = p(&["sys", "class", "cpu1", "governor"]);
    let writer = fs
        .open(OpenOptions::default().create(true).write(true), &target)
        .unwrap();
    assert_eq!(fs.write_to(&writer, b"performance"), Ok(()));
    let reader = fs.open(OpenOptions::default().read(true), &target).unwrap();
    assert_eq!(fs.read_to_string(&reader).unwrap(), "performance");
}

#[test]
fn opening_a_missing_path_without_create_fails_not_found() {
    let fs = TestFs::new(vec![p(&["sys", "class", "cpu0", "governor"])]);
    let r = fs.open(OpenOptions::default().read(true), &p(&["missing"]));
    assert_eq!(r.unwrap_err(), FsError::NotFound);
}

#[test]
fn protocol_values_are_constructible() {
    let req = Request::SetScaling(CpuCores::Range(0, 5), ScalingType::Preset("powersave".to_string()));
    match req.clone() {
        Request::SetScaling(CpuCores::Range(lo, hi), ScalingType::Preset(name)) => {
            assert_eq!(lo, 0);
            assert_eq!(hi, 5);
            assert_eq!(name, "powersave");
        }
        _ => panic!("wrong variant"),
    }
    assert!(matches!(CpuCores::default(), CpuCores::All));
    assert!(matches!(Request::Get(CpuCores::One(3)), Request::Get(CpuCores::One(3))));
    assert!(matches!(
        Request::List(CpuCores::Multiple(vec![0, 2])),
        Request::List(CpuCores::Multiple(_))
    ));

    let mut table = HashMap::new();
    table.insert(
        0u8,
        PerCpuInformation { governor: "performance".to_string(), megahertz: Some(2400) },
    );
    let resp: Response<String> = Response::Information(Information::Table(table));
    match resp {
        Response::Information(Information::Table(t)) => {
            assert_eq!(t[&0].governor, "performance");
            assert_eq!(t[&0].megahertz, Some(2400));
        }
        _ => panic!("wrong variant"),
    }
    let err: Response<String> = Response::Error(ServerError::NotRoot);
    assert!(matches!(err, Response::Error(ServerError::NotRoot)));
    let other: Response<String> = Response::Error(ServerError::Other("boom".to_string()));
    match other {
        Response::Error(ServerError::Other(s)) => assert_eq!(s, "boom"),
        _ => panic!("wrong variant"),
    }
    let govs: Response<String> =
        Response::ScalingGovernors(vec!["performance".to_string(), "powersave".to_string()]);
    match govs {
        Response::ScalingGovernors(g) => assert_eq!(g.len(), 2),
        _ => panic!("wrong variant"),
    }
}

#[test]
fn path_operations() {
    let a = p(&["sys", "class", "cpu0"]);
    let b = p(&["sys", "class", "cpu0", "governor"]);
    assert_eq!(a.len(), 3);
    assert!(a.eq_path(&a.dup()));
    assert!(!a.eq_path(&b));
    assert!(b.has_strict_prefix(&a));
    assert!(!a.has_strict_prefix(&b));
    assert!(!a.has_strict_prefix(&a));
    // agreeing on a component count is not enough: components must match
    assert!(!b.has_strict_prefix(&p(&["sys", "class", "cpu1"])));
    assert!(b.take_prefix(3).eq_path(&a));
}
