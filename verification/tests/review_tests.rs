use pacdef::package::Package;
use pacdef::review::{
    divide_actions, intention_of_char, parse_group_choice, review_step, review_summary, ReviewAction,
    ReviewIntention, ReviewStep, ReviewsPerBackend, Strategy, StrategyStep,
};

fn pkg(name: &str) -> Package {
    Package { name: name.to_string(), repo: None }
}

#[test]
fn answer_keys() {
    assert_eq!(intention_of_char('a'), ReviewIntention::AsDependency);
    assert_eq!(intention_of_char('g'), ReviewIntention::AssignGroup);
    assert_eq!(intention_of_char('q'), ReviewIntention::Quit);
    assert_eq!(intention_of_char('x'), ReviewIntention::Invalid);
}

#[test]
fn steps_of_a_review() {
    let mut actions = vec![];
    let p = pkg("zsh");
    assert_eq!(review_step(&p, ReviewIntention::Info, None, &mut actions), ReviewStep::ShowInfoAndAskAgain);
    assert_eq!(review_step(&p, ReviewIntention::AssignGroup, None, &mut actions), ReviewStep::AskAgain);
    assert!(actions.is_empty());
    assert_eq!(review_step(&p, ReviewIntention::AssignGroup, Some(1), &mut actions), ReviewStep::NextPackage);
    assert_eq!(review_step(&p, ReviewIntention::Skip, None, &mut actions), ReviewStep::NextPackage);
    assert_eq!(review_step(&p, ReviewIntention::Quit, None, &mut actions), ReviewStep::Quit);
    assert_eq!(actions.len(), 1);
    assert!(matches!(&actions[0], ReviewAction::AssignGroup(q, 1) if q.name == "zsh"));
}

#[test]
fn group_choice() {
    assert_eq!(parse_group_choice(" 1 \n", 3), Some(1));
    assert_eq!(parse_group_choice("+2", 3), Some(2));
    assert_eq!(parse_group_choice("3", 3), None);
    assert_eq!(parse_group_choice("x", 3), None);
    assert_eq!(parse_group_choice("", 3), None);
    assert_eq!(parse_group_choice("99999999999999999999999", 3), None);
}

#[test]
fn actions_divided_and_shown() {
    let actions = vec![
        ReviewAction::Delete(pkg("a")),
        ReviewAction::AssignGroup(pkg("b"), 0),
        ReviewAction::AsDependency(pkg("c")),
        ReviewAction::Delete(pkg("d")),
    ];
    let (delete, assign, dep) = divide_actions(actions);
    assert_eq!(delete.len(), 2);
    assert_eq!(assign.len(), 1);
    assert_eq!(dep.len(), 1);
    let s = Strategy::new("arch".to_string(), delete, dep, assign);
    let names = vec!["base".to_string()];
    assert_eq!(
        s.show(&names),
        "[arch]\ndelete:\n  a\n  d\nas depdendency:\n  c\nassign groups:\n  b -> base\n"
    );
    assert_eq!(s.execute(), vec![StrategyStep::Remove, StrategyStep::MakeDependency, StrategyStep::AssignGroup]);
}

#[test]
fn summary_skips_empty_strategies() {
    let mut reviews = ReviewsPerBackend::new();
    reviews.push(("arch".to_string(), vec![ReviewAction::Delete(pkg("a"))]));
    reviews.push(("rust".to_string(), vec![]));
    reviews.push(("python".to_string(), vec![ReviewAction::AsDependency(pkg("b"))]));
    assert!(!reviews.nothing_to_do());
    let strategies = reviews.into_strategies();
    assert_eq!(strategies.len(), 3);
    assert!(strategies[1].nothing_to_do());
    let text = review_summary(&strategies, &vec![]);
    assert_eq!(text, "[arch]\ndelete:\n  a\n\n[python]\nas depdendency:\n  b\n");
}
