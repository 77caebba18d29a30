use prompt_feedback::db::{
    create_feedback, create_prompt, delete_feedback_for, delete_prompt, delete_prompt_row,
    delete_steps, get_all_prompts, get_feedback_for_prompt, get_prompt_by_id, init_db,
    insert_feedback, insert_prompt, new_feedback, new_prompt, remove, Feedback, Prompt, Removal,
    StorageError,
};

fn prompt(id: &str, title: &str, created_at: &str) -> Prompt {
    Prompt {
        id: id.to_string(),
        title: title.to_string(),
        description: String::new(),
        created_at: created_at.to_string(),
    }
}

fn feedback(id: &str, prompt_id: &str, content: &str, created_at: &str) -> Feedback {
    Feedback {
        id: id.to_string(),
        prompt_id: prompt_id.to_string(),
        content: content.to_string(),
        created_at: created_at.to_string(),
    }
}

fn titles(list: &[Prompt]) -> Vec<String> {
    list.iter().map(|p| p.title.clone()).collect()
}

fn contents(list: &[Feedback]) -> Vec<String> {
    list.iter().map(|f| f.content.clone()).collect()
}

#[test]
fn test_create_prompt() {
    let mut store = init_db();

    let prompt = create_prompt(&mut store, "Test Title", "Test Description").unwrap();

    assert_eq!(prompt.title, "Test Title");
    assert_eq!(prompt.description, "Test Description");
    assert!(!prompt.id.is_empty());
    assert!(!prompt.created_at.is_empty());
}

#[test]
fn test_get_all_prompts_empty() {
    let store = init_db();

    let prompts = get_all_prompts(&store).unwrap();

    assert!(prompts.is_empty());
}

#[test]
fn test_get_all_prompts() {
    let mut store = init_db();

    create_prompt(&mut store, "First", "First desc").unwrap();
    create_prompt(&mut store, "Second", "Second desc").unwrap();

    let prompts = get_all_prompts(&store).unwrap();

    assert_eq!(prompts.len(), 2);
    assert_eq!(prompts[0].title, "Second");
    assert_eq!(prompts[1].title, "First");
}

#[test]
fn test_get_prompt_by_id() {
    let mut store = init_db();

    let created = create_prompt(&mut store, "Test", "Description").unwrap();

    let found = get_prompt_by_id(&store, &created.id).unwrap();

    assert!(found.is_some());
    let found = found.unwrap();
    assert_eq!(found.id, created.id);
    assert_eq!(found.title, "Test");
    assert_eq!(found.description, "Description");
}

#[test]
fn test_get_prompt_by_id_not_found() {
    let store = init_db();

    let found = get_prompt_by_id(&store, "nonexistent-id").unwrap();

    assert!(found.is_none());
}

#[test]
fn test_create_feedback() {
    let mut store = init_db();

    let prompt = create_prompt(&mut store, "Test", "Description").unwrap();

    let feedback = create_feedback(&mut store, &prompt.id, "Great feedback!").unwrap();

    assert_eq!(feedback.prompt_id, prompt.id);
    assert_eq!(feedback.content, "Great feedback!");
    assert!(!feedback.id.is_empty());
    assert!(!feedback.created_at.is_empty());
}

#[test]
fn test_get_feedback_for_prompt_empty() {
    let mut store = init_db();

    let prompt = create_prompt(&mut store, "Test", "Description").unwrap();

    let feedback_list = get_feedback_for_prompt(&store, &prompt.id).unwrap();

    assert!(feedback_list.is_empty());
}

#[test]
fn test_get_feedback_for_prompt() {
    let mut store = init_db();

    let prompt = create_prompt(&mut store, "Test", "Description").unwrap();

    create_feedback(&mut store, &prompt.id, "First feedback").unwrap();
    create_feedback(&mut store, &prompt.id, "Second feedback").unwrap();

    let feedback_list = get_feedback_for_prompt(&store, &prompt.id).unwrap();

    assert_eq!(feedback_list.len(), 2);
    assert_eq!(feedback_list[0].content, "Second feedback");
    assert_eq!(feedback_list[1].content, "First feedback");
}

#[test]
fn test_feedback_isolation_between_prompts() {
    let mut store = init_db();

    let prompt1 = create_prompt(&mut store, "Prompt 1", "Desc 1").unwrap();
    let prompt2 = create_prompt(&mut store, "Prompt 2", "Desc 2").unwrap();

    create_feedback(&mut store, &prompt1.id, "Feedback for prompt 1").unwrap();
    create_feedback(&mut store, &prompt2.id, "Feedback for prompt 2").unwrap();

    let feedback1 = get_feedback_for_prompt(&store, &prompt1.id).unwrap();
    let feedback2 = get_feedback_for_prompt(&store, &prompt2.id).unwrap();

    assert_eq!(feedback1.len(), 1);
    assert_eq!(feedback1[0].content, "Feedback for prompt 1");

    assert_eq!(feedback2.len(), 1);
    assert_eq!(feedback2[0].content, "Feedback for prompt 2");
}

#[test]
fn created_prompt_round_trips() {
    let mut store = init_db();
    let created = create_prompt(&mut store, "Round", "").unwrap();
    let found = get_prompt_by_id(&store, &created.id).unwrap().unwrap();
    assert_eq!(found.id, created.id);
    assert_eq!(found.title, "Round");
    assert_eq!(found.description, "");
    assert_eq!(found.created_at, created.created_at);
}

#[test]
fn fresh_identifiers_are_hyphenated_and_differ() {
    let a = new_prompt("a", "b").unwrap();
    let b = new_prompt("a", "b").unwrap();
    assert_ne!(a.id, b.id);
    for id in [&a.id, &b.id] {
        let chars: Vec<char> = id.chars().collect();
        assert_eq!(chars.len(), 36);
        for (i, c) in chars.iter().enumerate() {
            if i == 8 || i == 13 || i == 18 || i == 23 {
                assert_eq!(*c, '-');
            } else {
                assert!(matches!(*c, '0'..='9' | 'a'..='f'));
            }
        }
        assert_eq!(chars[14], '4');
        assert!(matches!(chars[19], '8' | '9' | 'a' | 'b'));
    }
}

#[test]
fn stamps_carry_the_offset_of_utc() {
    let f = new_feedback("p", "c");
    assert_eq!(f.prompt_id, "p");
    assert_eq!(f.content, "c");
    assert!(f.created_at.len() >= 25);
    assert!(f.created_at.ends_with("+00:00"));
    assert_eq!(f.created_at.as_bytes()[10], b'T');
    let chars: Vec<char> = f.id.chars().collect();
    assert_eq!(chars.len(), 36);
}

#[test]
fn prompts_are_listed_newest_first_whatever_the_order_of_filing() {
    let mut store = init_db();
    insert_prompt(&mut store, prompt("b", "Middle", "2024-01-02T00:00:00+00:00")).unwrap();
    insert_prompt(&mut store, prompt("c", "Newest", "2024-01-03T00:00:00+00:00")).unwrap();
    insert_prompt(&mut store, prompt("a", "Oldest", "2024-01-01T00:00:00+00:00")).unwrap();
    let list = get_all_prompts(&store).unwrap();
    assert_eq!(titles(&list), vec!["Newest", "Middle", "Oldest"]);
}

#[test]
fn equal_stamps_list_the_later_filed_first() {
    let mut store = init_db();
    let stamp = "2024-01-01T00:00:00+00:00";
    insert_prompt(&mut store, prompt("a", "First", stamp)).unwrap();
    insert_prompt(&mut store, prompt("b", "Second", stamp)).unwrap();
    insert_prompt(&mut store, prompt("c", "Older", "2023-12-31T23:59:59+00:00")).unwrap();
    let list = get_all_prompts(&store).unwrap();
    assert_eq!(titles(&list), vec!["Second", "First", "Older"]);
}

#[test]
fn a_fraction_of_a_second_sorts_after_the_whole_second() {
    let mut store = init_db();
    insert_prompt(&mut store, prompt("b", "Later", "2024-01-01T00:00:00.5+00:00")).unwrap();
    insert_prompt(&mut store, prompt("a", "Sooner", "2024-01-01T00:00:00+00:00")).unwrap();
    let list = get_all_prompts(&store).unwrap();
    assert_eq!(titles(&list), vec!["Later", "Sooner"]);
}

#[test]
fn a_taken_prompt_identifier_is_refused() {
    let mut store = init_db();
    insert_prompt(&mut store, prompt("a", "One", "2024-01-01T00:00:00+00:00")).unwrap();
    let again = insert_prompt(&mut store, prompt("a", "Two", "2024-01-02T00:00:00+00:00"));
    assert_eq!(again, Err(StorageError::DuplicateId));
    let list = get_all_prompts(&store).unwrap();
    assert_eq!(titles(&list), vec!["One"]);
}

#[test]
fn feedback_on_an_unknown_prompt_is_refused() {
    let mut store = init_db();
    let res = insert_feedback(&mut store, feedback("f", "nobody", "x", "2024-01-01T00:00:00+00:00"));
    assert_eq!(res, Err(StorageError::UnknownPrompt));
    assert!(get_feedback_for_prompt(&store, "nobody").unwrap().is_empty());

    let res = create_feedback(&mut store, "nobody", "x");
    assert!(matches!(res, Err(StorageError::UnknownPrompt)));
    assert!(get_feedback_for_prompt(&store, "nobody").unwrap().is_empty());
}

#[test]
fn a_taken_feedback_identifier_is_refused() {
    let mut store = init_db();
    insert_prompt(&mut store, prompt("p", "P", "2024-01-01T00:00:00+00:00")).unwrap();
    insert_feedback(&mut store, feedback("f", "p", "one", "2024-01-01T00:00:01+00:00")).unwrap();
    let again = insert_feedback(&mut store, feedback("f", "p", "two", "2024-01-01T00:00:02+00:00"));
    assert_eq!(again, Err(StorageError::DuplicateId));
    let list = get_feedback_for_prompt(&store, "p").unwrap();
    assert_eq!(contents(&list), vec!["one"]);
}

#[test]
fn an_unknown_prompt_is_reported_before_a_taken_identifier() {
    let mut store = init_db();
    insert_prompt(&mut store, prompt("p", "P", "2024-01-01T00:00:00+00:00")).unwrap();
    insert_feedback(&mut store, feedback("f", "p", "one", "2024-01-01T00:00:01+00:00")).unwrap();
    let res = insert_feedback(&mut store, feedback("f", "q", "two", "2024-01-01T00:00:02+00:00"));
    assert_eq!(res, Err(StorageError::UnknownPrompt));
}

#[test]
fn feedback_is_listed_newest_first_for_its_prompt_only() {
    let mut store = init_db();
    insert_prompt(&mut store, prompt("p", "P", "2024-01-01T00:00:00+00:00")).unwrap();
    insert_prompt(&mut store, prompt("q", "Q", "2024-01-01T00:00:00+00:00")).unwrap();
    insert_feedback(&mut store, feedback("1", "p", "p-mid", "2024-02-02T00:00:00+00:00")).unwrap();
    insert_feedback(&mut store, feedback("2", "q", "q-new", "2024-02-04T00:00:00+00:00")).unwrap();
    insert_feedback(&mut store, feedback("3", "p", "p-new", "2024-02-03T00:00:00+00:00")).unwrap();
    insert_feedback(&mut store, feedback("4", "p", "p-old", "2024-02-01T00:00:00+00:00")).unwrap();
    insert_feedback(&mut store, feedback("5", "q", "q-old", "2024-02-01T00:00:00+00:00")).unwrap();
    let p = get_feedback_for_prompt(&store, "p").unwrap();
    let q = get_feedback_for_prompt(&store, "q").unwrap();
    assert_eq!(contents(&p), vec!["p-new", "p-mid", "p-old"]);
    assert_eq!(contents(&q), vec!["q-new", "q-old"]);
    assert!(p.iter().all(|f| f.prompt_id == "p"));
    assert!(get_feedback_for_prompt(&store, "r").unwrap().is_empty());
}

#[test]
fn deleting_a_prompt_takes_its_feedback_with_it() {
    let mut store = init_db();
    let doomed = create_prompt(&mut store, "Doomed", "").unwrap();
    let kept = create_prompt(&mut store, "Kept", "").unwrap();
    create_feedback(&mut store, &doomed.id, "gone one").unwrap();
    create_feedback(&mut store, &kept.id, "stays").unwrap();
    create_feedback(&mut store, &doomed.id, "gone two").unwrap();

    assert_eq!(delete_prompt(&mut store, &doomed.id), Ok(()));

    assert!(get_prompt_by_id(&store, &doomed.id).unwrap().is_none());
    assert!(get_feedback_for_prompt(&store, &doomed.id).unwrap().is_empty());
    assert_eq!(titles(&get_all_prompts(&store).unwrap()), vec!["Kept"]);
    let rest = get_feedback_for_prompt(&store, &kept.id).unwrap();
    assert_eq!(contents(&rest), vec!["stays"]);
    assert!(matches!(
        create_feedback(&mut store, &doomed.id, "late"),
        Err(StorageError::UnknownPrompt)
    ));
}

#[test]
fn deleting_an_unknown_prompt_changes_nothing() {
    let mut store = init_db();
    let kept = create_prompt(&mut store, "Kept", "").unwrap();
    create_feedback(&mut store, &kept.id, "stays").unwrap();
    assert_eq!(delete_prompt(&mut store, "nonexistent"), Ok(()));
    assert_eq!(get_all_prompts(&store).unwrap().len(), 1);
    assert_eq!(get_feedback_for_prompt(&store, &kept.id).unwrap().len(), 1);
}

#[test]
fn the_two_steps_of_deleting_stand_alone() {
    let mut store = init_db();
    insert_prompt(&mut store, prompt("p", "P", "2024-01-01T00:00:00+00:00")).unwrap();
    insert_prompt(&mut store, prompt("q", "Q", "2024-01-02T00:00:00+00:00")).unwrap();
    insert_feedback(&mut store, feedback("1", "p", "on p", "2024-02-01T00:00:00+00:00")).unwrap();
    insert_feedback(&mut store, feedback("2", "q", "on q", "2024-02-02T00:00:00+00:00")).unwrap();

    delete_feedback_for(&mut store, "p");
    assert!(get_feedback_for_prompt(&store, "p").unwrap().is_empty());
    assert!(get_prompt_by_id(&store, "p").unwrap().is_some());
    assert_eq!(contents(&get_feedback_for_prompt(&store, "q").unwrap()), vec!["on q"]);

    delete_prompt_row(&mut store, "q");
    assert!(get_prompt_by_id(&store, "q").unwrap().is_none());
    assert_eq!(titles(&get_all_prompts(&store).unwrap()), vec!["P"]);
    assert_eq!(contents(&get_feedback_for_prompt(&store, "q").unwrap()), vec!["on q"]);
}

#[test]
fn a_copy_of_a_prompt_holds_the_same_text() {
    let original = prompt("a", "Title", "2024-01-01T00:00:00+00:00");
    let copy = original.clone();
    assert_eq!(copy.id, "a");
    assert_eq!(copy.title, "Title");
    assert_eq!(copy.description, "");
    assert_eq!(copy.created_at, "2024-01-01T00:00:00+00:00");
    let original = feedback("f", "a", "Content", "2024-01-01T00:00:00+00:00");
    let copy = original.clone();
    assert_eq!(copy.id, "f");
    assert_eq!(copy.prompt_id, "a");
    assert_eq!(copy.content, "Content");
    assert_eq!(copy.created_at, "2024-01-01T00:00:00+00:00");
}

#[test]
fn deleting_names_the_feedback_before_the_prompt() {
    let steps = delete_steps("abc");
    assert_eq!(steps.len(), 2);
    assert!(matches!(&steps[0], Removal::FeedbackOf(owner) if owner == "abc"));
    assert!(matches!(&steps[1], Removal::PromptRow(key) if key == "abc"));
}

#[test]
fn each_step_of_deleting_removes_its_rows() {
    let mut store = init_db();
    insert_prompt(&mut store, prompt("p", "P", "2024-01-01T00:00:00+00:00")).unwrap();
    insert_feedback(&mut store, feedback("1", "p", "on p", "2024-02-01T00:00:00+00:00")).unwrap();

    remove(&mut store, &Removal::FeedbackOf("p".to_string()));
    assert!(get_feedback_for_prompt(&store, "p").unwrap().is_empty());
    assert!(get_prompt_by_id(&store, "p").unwrap().is_some());

    remove(&mut store, &Removal::PromptRow("p".to_string()));
    assert!(get_prompt_by_id(&store, "p").unwrap().is_none());
}

#[test]
fn a_prompt_without_a_title_is_refused() {
    assert!(matches!(new_prompt("", "Description"), Err(StorageError::EmptyTitle)));
    let made = new_prompt("T", "").unwrap();
    assert_eq!(made.title, "T");
    assert_eq!(made.description, "");

    let mut store = init_db();
    assert!(matches!(create_prompt(&mut store, "", "Description"), Err(StorageError::EmptyTitle)));
    assert!(get_all_prompts(&store).unwrap().is_empty());

    let blank = prompt("a", "", "2024-01-01T00:00:00+00:00");
    assert_eq!(insert_prompt(&mut store, blank), Err(StorageError::EmptyTitle));
    assert!(get_all_prompts(&store).unwrap().is_empty());
}

#[test]
fn a_missing_title_is_reported_before_a_taken_identifier() {
    let mut store = init_db();
    insert_prompt(&mut store, prompt("a", "One", "2024-01-01T00:00:00+00:00")).unwrap();
    let blank = prompt("a", "", "2024-01-02T00:00:00+00:00");
    assert_eq!(insert_prompt(&mut store, blank), Err(StorageError::EmptyTitle));
    assert_eq!(titles(&get_all_prompts(&store).unwrap()), vec!["One"]);
}

#[test]
fn the_first_prompt_and_the_first_feedback_are_always_filed() {
    let mut store = init_db();
    let prompt = create_prompt(&mut store, "Only", "").unwrap();
    assert_eq!(titles(&get_all_prompts(&store).unwrap()), vec!["Only"]);
    let feedback = create_feedback(&mut store, &prompt.id, "").unwrap();
    assert_eq!(feedback.content, "");
    assert_eq!(feedback.prompt_id, prompt.id);
    assert_eq!(contents(&get_feedback_for_prompt(&store, &prompt.id).unwrap()), vec![""]);
}
