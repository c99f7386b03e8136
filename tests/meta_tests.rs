use webgestalt_lib::readers::utils::Item;
use webgestaltpy::meta::{check_pairing, meta_ora_jobs, MetaOraError};
use webgestaltpy::ora::{ora, OraError};

fn strings(xs: &[&str]) -> Vec<String> {
    xs.iter().map(|x| x.to_string()).collect()
}

fn item(id: &str, parts: &[&str]) -> Item {
    Item {
        id: id.to_string(),
        url: String::new(),
        parts: strings(parts),
    }
}

fn catalog() -> Vec<Item> {
    vec![item("S1", &["A", "B", "C"]), item("S2", &["C", "D", "E"])]
}

#[test]
fn pairing_of_equal_counts() {
    assert_eq!(check_pairing(3, 3), Ok(()));
    assert_eq!(
        check_pairing(2, 1),
        Err(MetaOraError::ListCountMismatch {
            analyte_lists: 2,
            reference_lists: 1
        })
    );
}

#[test]
fn meta_ora_jobs_count_mismatch() {
    let res = meta_ora_jobs(
        catalog(),
        vec![strings(&["A"]), strings(&["B"])],
        vec![strings(&["A", "B"])],
    );
    assert!(matches!(
        res,
        Err(MetaOraError::ListCountMismatch {
            analyte_lists: 2,
            reference_lists: 1
        })
    ));
}

#[test]
fn meta_ora_jobs_fail_one_at_a_time() {
    let jobs = meta_ora_jobs(
        catalog(),
        vec![strings(&["A"]), strings(&["B"]), strings(&["X"])],
        vec![strings(&["A", "B", "C"]), Vec::new(), strings(&["C", "D"])],
    )
    .unwrap();
    assert_eq!(jobs.len(), 3);
    assert_eq!(jobs[0].as_ref().unwrap().len(), 2);
    assert!(matches!(jobs[1], Err(OraError::EmptyReference)));
    let third = jobs[2].as_ref().unwrap();
    assert_eq!(third.len(), 2);
    assert_eq!(third[0].overlap, 0);
}

#[test]
fn meta_ora_single_job_reproduces_the_job() {
    let interest = strings(&["A", "B"]);
    let reference = strings(&["A", "B", "C", "D", "E", "F"]);
    let single = ora(catalog(), interest.clone(), reference.clone()).unwrap();
    let jobs = meta_ora_jobs(catalog(), vec![interest], vec![reference]).unwrap();
    assert_eq!(jobs.len(), 1);
    let job = jobs[0].as_ref().unwrap();
    assert_eq!(job.len(), single.len());
    for (a, b) in job.iter().zip(single.iter()) {
        assert_eq!(a.set, b.set);
        assert_eq!(a.overlap, b.overlap);
        assert_eq!(a.p, b.p);
        assert_eq!(a.fdr, b.fdr);
        assert_eq!(a.expected, b.expected);
    }
}

#[test]
fn meta_ora_two_jobs() {
    let jobs = meta_ora_jobs(
        catalog(),
        vec![strings(&["A", "B"]), strings(&["C", "D"])],
        vec![strings(&["A", "B", "C", "D", "E"]), strings(&["A", "B", "C", "D", "E"])],
    )
    .unwrap();
    assert_eq!(jobs.len(), 2);
    let first = jobs[0].as_ref().unwrap();
    let second = jobs[1].as_ref().unwrap();
    assert_eq!(first[0].overlap, 2);
    assert_eq!(first[1].overlap, 0);
    assert_eq!(second[0].overlap, 1);
    assert_eq!(second[1].overlap, 2);
}

#[test]
fn meta_ora_jobs_without_lists() {
    let jobs = meta_ora_jobs(catalog(), Vec::new(), Vec::new()).unwrap();
    assert!(jobs.is_empty());
}
