use stateful_fold::fold::{Foldable, StatefulFold};
use stateful_fold::try_fold::{try_fold_by_ref, TryFoldable, TryStatefulFold};
use std::cell::RefCell;
use std::rc::Rc;

#[derive(Debug, PartialEq)]
struct NegativeValue(i32);

/// Running sum that refuses negative items.
#[derive(Default)]
struct PositiveSum {
    total: i32,
}

impl TryFoldable<i32> for PositiveSum {
    type Result = i32;
    type Error = NegativeValue;

    fn try_fold(self, item: i32) -> Result<Self, NegativeValue> {
        if item < 0 {
            Err(NegativeValue(item))
        } else {
            Ok(PositiveSum { total: self.total + item })
        }
    }

    fn get_result(self) -> i32 {
        self.total
    }
}

/// Running sum that accepts everything.
#[derive(Default)]
struct PlainSum {
    total: i32,
}

impl Foldable<i32> for PlainSum {
    type Result = i32;

    fn fold(self, item: i32) -> Self {
        PlainSum { total: self.total + item }
    }

    fn get_result(self) -> i32 {
        self.total
    }
}

/// Refuses negative items, and must never be finished.
#[derive(Default)]
struct NeverFinished {
    absorbed: usize,
}

impl TryFoldable<i32> for NeverFinished {
    type Result = usize;
    type Error = (usize, i32);

    fn try_fold(self, item: i32) -> Result<Self, (usize, i32)> {
        if item < 0 {
            Err((self.absorbed, item))
        } else {
            Ok(NeverFinished { absorbed: self.absorbed + 1 })
        }
    }

    fn get_result(self) -> usize {
        panic!("finished after a refusal")
    }
}

/// Starts with a budget of 10 and refuses the item that overdraws it.
#[derive(Debug, PartialEq)]
struct Overdrawn {
    missing: u32,
}

#[derive(Default)]
struct Budget {
    left: u32,
}

impl TryFoldable<u32> for Budget {
    type Result = u32;
    type Error = Overdrawn;

    fn init() -> Self {
        Budget { left: 10 }
    }

    fn try_fold(self, item: u32) -> Result<Self, Overdrawn> {
        if item > self.left {
            Err(Overdrawn { missing: item - self.left })
        } else {
            Ok(Budget { left: self.left - item })
        }
    }

    fn get_result(self) -> u32 {
        self.left
    }
}

/// Writes every call into the journal that the items carry, and refuses
/// negative items.
type Journal = Rc<RefCell<Vec<String>>>;

#[derive(Default)]
struct Recorder {
    journal: Option<Journal>,
}

impl TryFoldable<(i32, Journal)> for Recorder {
    type Result = ();
    type Error = i32;

    fn try_fold(self, item: (i32, Journal)) -> Result<Self, i32> {
        item.1.borrow_mut().push(format!("try_fold {}", item.0));
        if item.0 < 0 {
            Err(item.0)
        } else {
            Ok(Recorder { journal: Some(item.1) })
        }
    }

    fn get_result(self) {
        if let Some(journal) = self.journal {
            journal.borrow_mut().push(String::from("finish"));
        }
    }
}

#[test]
fn negative_item_is_refused() {
    let outcome = vec![1, 2, -3, 4].into_iter().try_fold_with_state::<PositiveSum>();
    assert_eq!(outcome, Err(NegativeValue(-3)));
}

#[test]
fn non_negative_items_sum_to_six() {
    let outcome = vec![1, 2, 3].into_iter().try_fold_with_state::<PositiveSum>();
    assert_eq!(outcome, Ok(6));
}

#[test]
fn first_refusal_is_the_outcome() {
    let outcome = vec![1, -2, -3, 4, -5].into_iter().try_fold_with_state::<PositiveSum>();
    assert_eq!(outcome, Err(NegativeValue(-2)));
}

#[test]
fn refusal_of_the_first_item() {
    let outcome = vec![-1, 2, 3].into_iter().try_fold_with_state::<PositiveSum>();
    assert_eq!(outcome, Err(NegativeValue(-1)));
}

#[test]
fn refusal_of_the_last_item() {
    let outcome = vec![1, 2, -3].into_iter().try_fold_with_state::<PositiveSum>();
    assert_eq!(outcome, Err(NegativeValue(-3)));
}

#[test]
fn refusal_of_the_only_item() {
    let outcome = vec![-9].into_iter().try_fold_with_state::<PositiveSum>();
    assert_eq!(outcome, Err(NegativeValue(-9)));
}

#[test]
fn empty_sequence_succeeds_with_result_of_initial_state() {
    let outcome = Vec::<i32>::new().into_iter().try_fold_with_state::<PositiveSum>();
    assert_eq!(outcome, Ok(0));

    let budget = Vec::<u32>::new().into_iter().try_fold_with_state::<Budget>();
    assert_eq!(budget, Ok(Budget::init().get_result()));
    assert_eq!(budget, Ok(10));
}

#[test]
fn error_is_handed_on_as_it_was_made() {
    let outcome = vec![3, 4, 5, 6].into_iter().try_fold_with_state::<Budget>();
    assert_eq!(outcome, Err(Overdrawn { missing: 2 }));

    let outcome = vec![5, 1, -4, -8].into_iter().try_fold_with_state::<NeverFinished>();
    assert_eq!(outcome, Err((2, -4)));
}

#[test]
fn refusal_depends_on_the_state_reached() {
    assert_eq!(vec![4, 6].into_iter().try_fold_with_state::<Budget>(), Ok(0));
    assert_eq!(
        vec![6, 6].into_iter().try_fold_with_state::<Budget>(),
        Err(Overdrawn { missing: 2 })
    );
    assert_eq!(
        vec![11].into_iter().try_fold_with_state::<Budget>(),
        Err(Overdrawn { missing: 1 })
    );
}

#[test]
fn no_item_is_pulled_after_a_refusal() {
    let pulled = RefCell::new(Vec::new());
    let outcome = vec![1, 2, -3, 4, 5]
        .into_iter()
        .inspect(|item| pulled.borrow_mut().push(*item))
        .try_fold_with_state::<PositiveSum>();
    assert_eq!(outcome, Err(NegativeValue(-3)));
    assert_eq!(*pulled.borrow(), vec![1, 2, -3]);
}

#[test]
fn every_item_is_pulled_without_a_refusal() {
    let pulled = RefCell::new(Vec::new());
    let outcome = vec![1, 2, 3]
        .into_iter()
        .inspect(|item| pulled.borrow_mut().push(*item))
        .try_fold_with_state::<PositiveSum>();
    assert_eq!(outcome, Ok(6));
    assert_eq!(*pulled.borrow(), vec![1, 2, 3]);
}

#[test]
fn nothing_is_finished_after_a_refusal() {
    let outcome = vec![1, 2, -3, 4].into_iter().try_fold_with_state::<NeverFinished>();
    assert_eq!(outcome, Err((2, -3)));
}

#[test]
fn calls_stop_at_the_refusal() {
    let journal: Journal = Rc::new(RefCell::new(Vec::new()));
    let items: Vec<(i32, Journal)> = vec![
        (1, journal.clone()),
        (2, journal.clone()),
        (-3, journal.clone()),
        (4, journal.clone()),
    ];
    let outcome = items.into_iter().try_fold_with_state::<Recorder>();
    assert_eq!(outcome, Err(-3));
    assert_eq!(
        *journal.borrow(),
        vec![
            String::from("try_fold 1"),
            String::from("try_fold 2"),
            String::from("try_fold -3"),
        ]
    );
}

#[test]
fn calls_run_to_the_end_without_a_refusal() {
    let journal: Journal = Rc::new(RefCell::new(Vec::new()));
    let items: Vec<(i32, Journal)> = vec![(1, journal.clone()), (2, journal.clone())];
    let outcome = items.into_iter().try_fold_with_state::<Recorder>();
    assert_eq!(outcome, Ok(()));
    assert_eq!(
        *journal.borrow(),
        vec![
            String::from("try_fold 1"),
            String::from("try_fold 2"),
            String::from("finish"),
        ]
    );
}

#[test]
fn success_is_what_the_infallible_fold_gives() {
    let cases: Vec<Vec<i32>> = vec![
        vec![],
        vec![0],
        vec![1, 2, 3],
        vec![7, 0, 7, 0, 7],
        vec![100, 200, 300, 400],
    ];
    for items in cases {
        let tried = items.clone().into_iter().try_fold_with_state::<PositiveSum>();
        let plain = items.into_iter().fold_with_state::<PlainSum>();
        assert_eq!(tried, Ok(plain));
    }
}

#[test]
fn try_init_is_default_unless_overridden() {
    assert_eq!(PositiveSum::init().total, 0);
    assert_eq!(PositiveSum::init().total, PositiveSum::default().total);
    assert_eq!(Budget::init().left, 10);
    assert_eq!(Budget::default().left, 0);
}

#[test]
fn any_iterator_can_be_tried() {
    assert_eq!((1..=4).try_fold_with_state::<PositiveSum>(), Ok(10));
    assert_eq!(
        [3, 2, 1].iter().map(|x| x - 2).try_fold_with_state::<PositiveSum>(),
        Err(NegativeValue(-1))
    );
    assert_eq!(
        (0..).map(|x| 5 - x).try_fold_with_state::<PositiveSum>(),
        Err(NegativeValue(-1))
    );
}

#[test]
fn by_ref_leaves_the_items_after_a_refusal() {
    let mut iter = vec![1, 2, -3, 4, 5].into_iter();
    let outcome = try_fold_by_ref::<_, PositiveSum>(&mut iter);
    assert_eq!(outcome, Err(NegativeValue(-3)));
    assert_eq!(iter.next(), Some(4));
    assert_eq!(iter.next(), Some(5));
    assert_eq!(iter.next(), None);
}

#[test]
fn by_ref_can_go_on_after_a_refusal() {
    let mut iter = vec![1, 2, -3, 4, 5, -6, 7].into_iter();
    assert_eq!(try_fold_by_ref::<_, PositiveSum>(&mut iter), Err(NegativeValue(-3)));
    assert_eq!(try_fold_by_ref::<_, PositiveSum>(&mut iter), Err(NegativeValue(-6)));
    assert_eq!(try_fold_by_ref::<_, PositiveSum>(&mut iter), Ok(7));
    assert_eq!(try_fold_by_ref::<_, PositiveSum>(&mut iter), Ok(0));
}

#[test]
fn by_ref_exhausts_the_iterator_on_success() {
    let mut iter = vec![1, 2, 3].into_iter();
    let outcome = try_fold_by_ref::<_, PositiveSum>(&mut iter);
    assert_eq!(outcome, Ok(6));
    assert_eq!(iter.next(), None);
}

#[test]
fn by_ref_on_an_empty_iterator() {
    let mut iter = Vec::<u32>::new().into_iter();
    assert_eq!(try_fold_by_ref::<_, Budget>(&mut iter), Ok(10));
    assert_eq!(iter.next(), None);
}

#[test]
fn by_ref_gives_what_the_method_gives() {
    let cases: Vec<Vec<i32>> = vec![vec![], vec![1, 2, 3], vec![1, 2, -3, 4], vec![-1]];
    for items in cases {
        let mut iter = items.clone().into_iter();
        let by_ref = try_fold_by_ref::<_, PositiveSum>(&mut iter);
        let by_value = items.into_iter().try_fold_with_state::<PositiveSum>();
        assert_eq!(by_ref, by_value);
    }
}
