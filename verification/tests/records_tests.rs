use stable_gov::exam::Exam;
use stable_gov::records::RecordsService;
use stable_gov::storage::fresh_region;
use stable_gov::stores::StoreError;

fn new_service() -> RecordsService {
    RecordsService::init(fresh_region())
}

fn exam(out_of: u8, course: &str, curve: u8) -> Exam {
    Exam { out_of, course: String::from(course), curve }
}

#[test]
fn exam_crud() {
    let mut svc = new_service();
    assert!(svc.get_exam(1).is_none());
    assert!(svc.create_exam(1, exam(100, "Algebra", 5)).unwrap().is_none());
    let e = svc.get_exam(1).unwrap();
    assert_eq!(e.out_of, 100);
    assert_eq!(e.course, "Algebra");
    assert_eq!(e.curve, 5);
    let prev = svc.create_exam(1, exam(90, "Algebra II", 0)).unwrap().unwrap();
    assert_eq!(prev.course, "Algebra");
    assert_eq!(svc.exam_count(), 1);
}

#[test]
fn oversized_exam_is_rejected_atomically() {
    let mut svc = new_service();
    svc.create_exam(2, exam(50, "short", 1)).unwrap();
    // 10 bytes of framing + 91 bytes of course name exceed the 100 bound
    let long_name = "c".repeat(91);
    assert!(matches!(
        svc.create_exam(2, Exam { out_of: 1, course: long_name, curve: 1 }),
        Err(StoreError::RecordTooLarge)
    ));
    assert_eq!(svc.get_exam(2).unwrap().course, "short");
    // 10 + 90 = 100 is exactly at the bound and accepted
    let edge_name = "c".repeat(90);
    svc.create_exam(3, Exam { out_of: 1, course: edge_name.clone(), curve: 1 }).unwrap();
    assert_eq!(svc.get_exam(3).unwrap().course, edge_name);
}

#[test]
fn participation_set_and_overwrite() {
    let mut svc = new_service();
    assert!(svc.get_participation(7).is_none());
    assert!(svc.set_participation(7, 55).is_none());
    assert_eq!(svc.get_participation(7), Some(55));
    assert_eq!(svc.set_participation(7, 80), Some(55));
    assert_eq!(svc.get_participation(7), Some(80));
    assert_eq!(svc.participation_count(), 1);
    svc.set_participation(8, u64::MAX);
    assert_eq!(svc.get_participation(8), Some(u64::MAX));
    assert_eq!(svc.participation_count(), 2);
}

#[test]
fn the_two_maps_do_not_interfere() {
    let mut svc = new_service();
    svc.create_exam(1, exam(100, "Isolated", 0)).unwrap();
    svc.set_participation(1, 10);
    svc.set_participation(2, 20);
    let e = svc.get_exam(1).unwrap();
    assert_eq!(e.course, "Isolated");
    assert!(svc.get_exam(2).is_none());
    svc.create_exam(2, exam(40, "Other", 9)).unwrap();
    assert_eq!(svc.get_participation(1), Some(10));
    assert_eq!(svc.get_participation(2), Some(20));
    assert_eq!(svc.exam_count(), 2);
    assert_eq!(svc.participation_count(), 2);
}

#[test]
fn restart_preserves_exams_and_participation() {
    let mut svc = new_service();
    svc.create_exam(1, exam(100, "Persisted", 3)).unwrap();
    svc.set_participation(1, 75);
    svc.set_participation(9, 100);

    let svc = svc.restart();
    let e = svc.get_exam(1).unwrap();
    assert_eq!(e.out_of, 100);
    assert_eq!(e.course, "Persisted");
    assert_eq!(e.curve, 3);
    assert_eq!(svc.get_participation(1), Some(75));
    assert_eq!(svc.get_participation(9), Some(100));
    assert_eq!(svc.exam_count(), 1);
    assert_eq!(svc.participation_count(), 2);
}

#[test]
fn reattaching_a_detached_region_preserves_records() {
    let mut svc = new_service();
    svc.create_exam(4, exam(20, "Kept", 2)).unwrap();
    svc.set_participation(4, 44);
    let region = svc.detach();
    let svc = RecordsService::init(region);
    assert_eq!(svc.get_exam(4).unwrap().course, "Kept");
    assert_eq!(svc.get_participation(4), Some(44));
}
