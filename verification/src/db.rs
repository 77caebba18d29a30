//! The repository: prompts and the feedback given on them, with the rules
//! of their lifecycle.

use crate::mint::{fresh_id, is_random_id, is_utc_stamp, utc_now};
use crate::order::{
    filed, holds_key, law_filed_then_selected, law_latest_is_filed_first, lemma_filed_well_kept,
    lemma_filter_well_kept, lemma_row_with_key, lemma_slot_for, lemma_slot_unique, newest_first,
    row_with_key, slot_for, well_kept, Record,
};
use crate::text::{precedes, same, sorts_before};
use vstd::prelude::*;

verus! {

/// A named request for feedback, created by an operator.
#[derive(Debug)]
pub struct Prompt {
    pub id: String,
    pub title: String,
    pub description: String,
    pub created_at: String,
}

/// A free-text response, given on exactly one prompt.
#[derive(Debug)]
pub struct Feedback {
    pub id: String,
    pub prompt_id: String,
    pub content: String,
    pub created_at: String,
}

/// What a prompt holds, as text.
pub struct PromptView {
    pub id: Seq<char>,
    pub title: Seq<char>,
    pub description: Seq<char>,
    pub created_at: Seq<char>,
}

/// What a piece of feedback holds, as text.
pub struct FeedbackView {
    pub id: Seq<char>,
    pub prompt_id: Seq<char>,
    pub content: Seq<char>,
    pub created_at: Seq<char>,
}

impl View for Prompt {
    type V = PromptView;

    open spec fn view(&self) -> PromptView {
        PromptView {
            id: self.id@,
            title: self.title@,
            description: self.description@,
            created_at: self.created_at@,
        }
    }
}

impl View for Feedback {
    type V = FeedbackView;

    open spec fn view(&self) -> FeedbackView {
        FeedbackView {
            id: self.id@,
            prompt_id: self.prompt_id@,
            content: self.content@,
            created_at: self.created_at@,
        }
    }
}

impl Record for PromptView {
    open spec fn key(&self) -> Seq<char> {
        self.id
    }

    open spec fn stamp(&self) -> Seq<char> {
        self.created_at
    }
}

impl Record for FeedbackView {
    open spec fn key(&self) -> Seq<char> {
        self.id
    }

    open spec fn stamp(&self) -> Seq<char> {
        self.created_at
    }
}

impl Clone for Prompt {
    fn clone(&self) -> (copy: Self)
        ensures
            copy@ == self@,
    {
        Prompt {
            id: self.id.clone(),
            title: self.title.clone(),
            description: self.description.clone(),
            created_at: self.created_at.clone(),
        }
    }
}

impl Clone for Feedback {
    fn clone(&self) -> (copy: Self)
        ensures
            copy@ == self@,
    {
        Feedback {
            id: self.id.clone(),
            prompt_id: self.prompt_id.clone(),
            content: self.content.clone(),
            created_at: self.created_at.clone(),
        }
    }
}

/// The rows of a list of prompts.
pub open spec fn prompt_rows(list: Seq<Prompt>) -> Seq<PromptView> {
    list.map_values(|p: Prompt| p@)
}

/// The rows of a list of feedback.
pub open spec fn feedback_rows(list: Seq<Feedback>) -> Seq<FeedbackView> {
    list.map_values(|f: Feedback| f@)
}

/// Why the store refused a row.
#[derive(Debug, Clone, Copy, PartialEq, Eq, Structural)]
pub enum StorageError {
    /// A prompt must have a title.
    EmptyTitle,
    /// A row with this identifier is already there.
    DuplicateId,
    /// The feedback names a prompt that is not there.
    UnknownPrompt,
}

/// The store: the table of prompts and the table of feedback, each kept
/// newest first.
pub struct Store {
    prompts: Vec<Prompt>,
    feedback: Vec<Feedback>,
}

/// What a store holds: the rows of its two tables, in listing order.
pub struct StoreView {
    pub prompts: Seq<PromptView>,
    pub feedback: Seq<FeedbackView>,
}

impl View for Store {
    type V = StoreView;

    closed spec fn view(&self) -> StoreView {
        StoreView { prompts: prompt_rows(self.prompts@), feedback: feedback_rows(self.feedback@) }
    }
}

/// The feedback given on the prompt `prompt_id`.
pub open spec fn owned_by(prompt_id: Seq<char>) -> spec_fn(FeedbackView) -> bool {
    |f: FeedbackView| f.prompt_id == prompt_id
}

/// The feedback given on any prompt but `prompt_id`.
pub open spec fn not_owned_by(prompt_id: Seq<char>) -> spec_fn(FeedbackView) -> bool {
    |f: FeedbackView| f.prompt_id != prompt_id
}

/// The prompts with any identifier but `id`.
pub open spec fn not_keyed(id: Seq<char>) -> spec_fn(PromptView) -> bool {
    |p: PromptView| p.id != id
}

/// Every prompt of `rows` has a title.
pub open spec fn titled(rows: Seq<PromptView>) -> bool {
    forall|i: int| 0 <= i < rows.len() ==> (#[trigger] rows[i]).title.len() > 0
}

/// Some row of `rows` bears an identifier of the random shape, so that an
/// identifier drawn afresh may turn out to be taken.
pub open spec fn holds_random_id<R: Record>(rows: Seq<R>) -> bool {
    exists|i: int| 0 <= i < rows.len() && is_random_id((#[trigger] rows[i]).key())
}

impl StoreView {
    /// The invariant of the store: in each table no identifier occurs
    /// twice and the rows stand newest first, and every prompt has a
    /// title.
    pub open spec fn wf(self) -> bool {
        well_kept(self.prompts) && well_kept(self.feedback) && titled(self.prompts)
    }

    /// Every piece of feedback names a prompt that is there.
    pub open spec fn references_resolve(self) -> bool {
        forall|i: int|
            0 <= i < self.feedback.len() ==> holds_key(
                self.prompts,
                (#[trigger] self.feedback[i]).prompt_id,
            )
    }

    /// The prompt with the identifier `id`, if there is one.
    pub open spec fn prompt(self, id: Seq<char>) -> Option<PromptView> {
        row_with_key(self.prompts, id)
    }

    /// The feedback given on the prompt `prompt_id`, newest first.
    pub open spec fn feedback_for(self, prompt_id: Seq<char>) -> Seq<FeedbackView> {
        self.feedback.filter(owned_by(prompt_id))
    }

    /// The store with the prompt `row` filed among its prompts.
    pub open spec fn with_prompt(self, row: PromptView) -> StoreView {
        StoreView { prompts: filed(self.prompts, row), feedback: self.feedback }
    }

    /// The store with the feedback `row` filed among its feedback.
    pub open spec fn with_feedback(self, row: FeedbackView) -> StoreView {
        StoreView { prompts: self.prompts, feedback: filed(self.feedback, row) }
    }

    /// The store without the feedback given on the prompt `prompt_id`.
    pub open spec fn without_feedback_for(self, prompt_id: Seq<char>) -> StoreView {
        StoreView {
            prompts: self.prompts,
            feedback: self.feedback.filter(not_owned_by(prompt_id)),
        }
    }

    /// The store without the prompt `id`; its feedback stays.
    pub open spec fn without_prompt(self, id: Seq<char>) -> StoreView {
        StoreView { prompts: self.prompts.filter(not_keyed(id)), feedback: self.feedback }
    }
}

/// The place in `rows` of the prompt with the identifier `id`.
fn prompt_place(rows: &Vec<Prompt>, id: &str) -> (place: Option<usize>)
    ensures
        match place {
            Some(i) => i < rows.len() && rows[i as int].id@ == id@,
            None => !holds_key(prompt_rows(rows@), id@),
        },
{
    let mut i: usize = 0;
    while i < rows.len()
        invariant
            i <= rows.len(),
            forall|k: int| 0 <= k < i ==> (#[trigger] prompt_rows(rows@)[k]).id != id@,
        decreases rows.len() - i,
    {
        if same(rows[i].id.as_str(), id) {
            return Some(i);
        }
        i += 1;
    }
    None
}

/// Whether `rows` holds feedback with the identifier `id`.
fn has_feedback(rows: &Vec<Feedback>, id: &str) -> (held: bool)
    ensures
        held == holds_key(feedback_rows(rows@), id@),
{
    let mut i: usize = 0;
    while i < rows.len()
        invariant
            i <= rows.len(),
            forall|k: int| 0 <= k < i ==> (#[trigger] feedback_rows(rows@)[k]).id != id@,
        decreases rows.len() - i,
    {
        if same(rows[i].id.as_str(), id) {
            assert(feedback_rows(rows@)[i as int].key() == id@);
            return true;
        }
        i += 1;
    }
    false
}

/// The place at which a prompt stamped `stamp` is filed in `rows`.
fn prompt_slot(rows: &Vec<Prompt>, stamp: &str) -> (slot: usize)
    ensures
        slot == slot_for(prompt_rows(rows@), stamp@),
        slot <= rows.len(),
{
    let mut k: usize = 0;
    while k < rows.len()
        invariant
            k <= rows.len(),
            forall|i: int|
                0 <= i < k ==> sorts_before(stamp@, (#[trigger] prompt_rows(rows@)[i]).stamp()),
        decreases rows.len() - k,
    {
        if !precedes(stamp, rows[k].created_at.as_str()) {
            proof {
                lemma_slot_unique(prompt_rows(rows@), stamp@, k as int);
            }
            return k;
        }
        k += 1;
    }
    proof {
        lemma_slot_unique(prompt_rows(rows@), stamp@, k as int);
    }
    k
}

/// The place at which feedback stamped `stamp` is filed in `rows`.
fn feedback_slot(rows: &Vec<Feedback>, stamp: &str) -> (slot: usize)
    ensures
        slot == slot_for(feedback_rows(rows@), stamp@),
        slot <= rows.len(),
{
    let mut k: usize = 0;
    while k < rows.len()
        invariant
            k <= rows.len(),
            forall|i: int|
                0 <= i < k ==> sorts_before(stamp@, (#[trigger] feedback_rows(rows@)[i]).stamp()),
        decreases rows.len() - k,
    {
        if !precedes(stamp, rows[k].created_at.as_str()) {
            proof {
                lemma_slot_unique(feedback_rows(rows@), stamp@, k as int);
            }
            return k;
        }
        k += 1;
    }
    proof {
        lemma_slot_unique(feedback_rows(rows@), stamp@, k as int);
    }
    k
}

/// An empty store: both tables are there and hold no row.
pub fn init_db() -> (store: Store)
    ensures
        store@.wf(),
        store@.references_resolve(),
        store@.prompts.len() == 0,
        store@.feedback.len() == 0,
{
    Store { prompts: Vec::new(), feedback: Vec::new() }
}

/// Files `prompt` among the prompts, unless it has no title or its
/// identifier is taken. A prompt without a title is refused as such,
/// whatever its identifier.
pub fn insert_prompt(store: &mut Store, prompt: Prompt) -> (res: Result<(), StorageError>)
    requires
        old(store)@.wf(),
    ensures
        final(store)@.wf(),
        old(store)@.references_resolve() ==> final(store)@.references_resolve(),
        prompt@.title.len() == 0 ==> res == Err::<(), StorageError>(StorageError::EmptyTitle)
            && final(store)@ == old(store)@,
        prompt@.title.len() > 0 && holds_key(old(store)@.prompts, prompt@.id) ==> res == Err::<
            (),
            StorageError,
        >(StorageError::DuplicateId) && final(store)@ == old(store)@,
        prompt@.title.len() > 0 && !holds_key(old(store)@.prompts, prompt@.id) ==> res is Ok
            && final(store)@ == old(store)@.with_prompt(prompt@),
{
    if prompt.title.as_str().is_empty() {
        return Err(StorageError::EmptyTitle);
    }
    if let Some(i) = prompt_place(&store.prompts, prompt.id.as_str()) {
        assert(store@.prompts[i as int].key() == prompt@.id);
        return Err(StorageError::DuplicateId);
    }
    let slot = prompt_slot(&store.prompts, prompt.created_at.as_str());
    let ghost row = prompt@;
    proof {
        lemma_filed_well_kept(store@.prompts, row);
        lemma_filed_titled(store@.prompts, row);
    }
    store.prompts.insert(slot, prompt);
    assert(prompt_rows(store.prompts@) =~= filed(old(store)@.prompts, row));
    Ok(())
}

/// A prompt that is not filed yet: a fresh identifier, the title and
/// description given, and the current time as its stamp. Without a title
/// there is no prompt.
pub fn new_prompt(title: &str, description: &str) -> (res: Result<Prompt, StorageError>)
    ensures
        title@.len() == 0 ==> res == Err::<Prompt, StorageError>(StorageError::EmptyTitle),
        title@.len() > 0 ==> (res matches Ok(prompt) && {
            &&& prompt@.title == title@
            &&& prompt@.description == description@
            &&& is_random_id(prompt@.id)
            &&& is_utc_stamp(prompt@.created_at)
        }),
{
    if title.is_empty() {
        return Err(StorageError::EmptyTitle);
    }
    Ok(
        Prompt {
            id: fresh_id(),
            title: title.to_owned(),
            description: description.to_owned(),
            created_at: utc_now(),
        },
    )
}

/// Feedback that is not filed yet: a fresh identifier, the prompt it is
/// given on, its content, and the current time as its stamp.
pub fn new_feedback(prompt_id: &str, content: &str) -> (feedback: Feedback)
    ensures
        feedback@.prompt_id == prompt_id@,
        feedback@.content == content@,
        is_random_id(feedback@.id),
        is_utc_stamp(feedback@.created_at),
{
    Feedback {
        id: fresh_id(),
        prompt_id: prompt_id.to_owned(),
        content: content.to_owned(),
        created_at: utc_now(),
    }
}

/// Creates a prompt with a fresh identifier and the current time as its
/// stamp, and files it.
///
/// A prompt without a title is refused. A prompt with a title is refused
/// only if the identifier drawn for it is already taken, which cannot be
/// unless the store holds an identifier of the random shape: into a store
/// without one, an empty store above all, the prompt is filed. Whenever
/// the prompt is refused the store is unchanged.
pub fn create_prompt(store: &mut Store, title: &str, description: &str) -> (res: Result<
    Prompt,
    StorageError,
>)
    requires
        old(store)@.wf(),
    ensures
        final(store)@.wf(),
        old(store)@.references_resolve() ==> final(store)@.references_resolve(),
        title@.len() == 0 ==> res == Err::<Prompt, StorageError>(StorageError::EmptyTitle),
        title@.len() > 0 && !holds_random_id(old(store)@.prompts) ==> res is Ok,
        match res {
            Ok(prompt) => {
                &&& title@.len() > 0
                &&& prompt@.title == title@
                &&& prompt@.description == description@
                &&& is_random_id(prompt@.id)
                &&& is_utc_stamp(prompt@.created_at)
                &&& !holds_key(old(store)@.prompts, prompt@.id)
                &&& final(store)@ == old(store)@.with_prompt(prompt@)
                &&& final(store)@.prompt(prompt@.id) == Some(prompt@)
            },
            Err(e) => {
                &&& final(store)@ == old(store)@
                &&& e == StorageError::EmptyTitle <==> title@.len() == 0
                &&& e == StorageError::DuplicateId <==> title@.len() > 0
                &&& e == StorageError::DuplicateId ==> holds_random_id(old(store)@.prompts)
            },
        },
{
    let prompt = match new_prompt(title, description) {
        Ok(prompt) => prompt,
        Err(e) => {
            return Err(e);
        },
    };
    let copy = prompt.clone();
    proof {
        if holds_key(store@.prompts, prompt@.id) {
            let i = choose|i: int|
                0 <= i < store@.prompts.len() && (#[trigger] store@.prompts[i]).key() == prompt@.id;
            assert(is_random_id(store@.prompts[i].key()));
        } else {
            law_created_prompt_is_found(store@, prompt@);
        }
    }
    match insert_prompt(store, prompt) {
        Ok(()) => Ok(copy),
        Err(e) => Err(e),
    }
}

/// A copy of each prompt of `rows`, in the same order.
fn copy_prompts(rows: &Vec<Prompt>) -> (out: Vec<Prompt>)
    ensures
        prompt_rows(out@) == prompt_rows(rows@),
{
    let mut out: Vec<Prompt> = Vec::new();
    let mut i: usize = 0;
    while i < rows.len()
        invariant
            i <= rows.len(),
            out.len() == i,
            forall|k: int| 0 <= k < i ==> out[k]@ == rows[k]@,
        decreases rows.len() - i,
    {
        out.push(rows[i].clone());
        i += 1;
    }
    assert(prompt_rows(out@) =~= prompt_rows(rows@));
    out
}

/// All prompts, newest first. An empty store gives an empty list.
pub fn get_all_prompts(store: &Store) -> (res: Result<Vec<Prompt>, StorageError>)
    requires
        store@.wf(),
    ensures
        res matches Ok(list) && prompt_rows(list@) == store@.prompts && newest_first(
            prompt_rows(list@),
        ),
{
    Ok(copy_prompts(&store.prompts))
}

/// The prompt with the identifier `id`. That there is none is an answer,
/// not a failure.
pub fn get_prompt_by_id(store: &Store, id: &str) -> (res: Result<Option<Prompt>, StorageError>)
    requires
        store@.wf(),
    ensures
        match res {
            Ok(Some(prompt)) => store@.prompt(id@) == Some(prompt@) && prompt@.id == id@,
            Ok(None) => store@.prompt(id@) is None && !holds_key(store@.prompts, id@),
            Err(_) => false,
        },
{
    match prompt_place(&store.prompts, id) {
        Some(i) => {
            proof {
                lemma_row_with_key(store@.prompts, i as int);
            }
            Ok(Some(store.prompts[i].clone()))
        },
        None => Ok(None),
    }
}

/// Files `feedback` among the feedback, unless the prompt it names is not
/// there or its own identifier is taken.
pub fn insert_feedback(store: &mut Store, feedback: Feedback) -> (res: Result<(), StorageError>)
    requires
        old(store)@.wf(),
    ensures
        final(store)@.wf(),
        old(store)@.references_resolve() ==> final(store)@.references_resolve(),
        !holds_key(old(store)@.prompts, feedback@.prompt_id) ==> res == Err::<(), StorageError>(
            StorageError::UnknownPrompt,
        ) && final(store)@ == old(store)@,
        holds_key(old(store)@.prompts, feedback@.prompt_id) && holds_key(
            old(store)@.feedback,
            feedback@.id,
        ) ==> res == Err::<(), StorageError>(StorageError::DuplicateId) && final(store)@ == old(
            store,
        )@,
        holds_key(old(store)@.prompts, feedback@.prompt_id) && !holds_key(
            old(store)@.feedback,
            feedback@.id,
        ) ==> res is Ok && final(store)@ == old(store)@.with_feedback(feedback@),
{
    match prompt_place(&store.prompts, feedback.prompt_id.as_str()) {
        Some(i) => {
            assert(store@.prompts[i as int].key() == feedback@.prompt_id);
        },
        None => {
            return Err(StorageError::UnknownPrompt);
        },
    }
    if has_feedback(&store.feedback, feedback.id.as_str()) {
        return Err(StorageError::DuplicateId);
    }
    let slot = feedback_slot(&store.feedback, feedback.created_at.as_str());
    let ghost row = feedback@;
    proof {
        lemma_filed_well_kept(store@.feedback, row);
    }
    store.feedback.insert(slot, feedback);
    assert(feedback_rows(store.feedback@) =~= filed(old(store)@.feedback, row));
    proof {
        if old(store)@.references_resolve() {
            let rows = store@.feedback;
            assert forall|i: int| 0 <= i < rows.len() implies holds_key(
                store@.prompts,
                (#[trigger] rows[i]).prompt_id,
            ) by {
                if i < slot {
                    assert(rows[i] == old(store)@.feedback[i]);
                } else if i > slot {
                    assert(rows[i] == old(store)@.feedback[i - 1]);
                }
            }
        }
    }
    Ok(())
}

/// Records feedback on the prompt `prompt_id`, with a fresh identifier
/// and the current time as its stamp.
///
/// Without a prompt of that identifier nothing is recorded. Feedback on a
/// prompt that is there is refused only if the identifier drawn for it is
/// already taken, which cannot be unless the store holds feedback with an
/// identifier of the random shape: where it holds none, above all where
/// it holds no feedback yet, the feedback is filed. Whenever the feedback
/// is refused the store is unchanged.
pub fn create_feedback(store: &mut Store, prompt_id: &str, content: &str) -> (res: Result<
    Feedback,
    StorageError,
>)
    requires
        old(store)@.wf(),
    ensures
        final(store)@.wf(),
        old(store)@.references_resolve() ==> final(store)@.references_resolve(),
        holds_key(old(store)@.prompts, prompt_id@) && !holds_random_id(old(store)@.feedback)
            ==> res is Ok,
        match res {
            Ok(feedback) => {
                &&& holds_key(old(store)@.prompts, prompt_id@)
                &&& feedback@.prompt_id == prompt_id@
                &&& feedback@.content == content@
                &&& is_random_id(feedback@.id)
                &&& is_utc_stamp(feedback@.created_at)
                &&& !holds_key(old(store)@.feedback, feedback@.id)
                &&& final(store)@ == old(store)@.with_feedback(feedback@)
            },
            Err(e) => {
                &&& final(store)@ == old(store)@
                &&& e == StorageError::UnknownPrompt <==> !holds_key(
                    old(store)@.prompts,
                    prompt_id@,
                )
                &&& e == StorageError::DuplicateId <==> holds_key(old(store)@.prompts, prompt_id@)
                &&& e == StorageError::DuplicateId ==> holds_random_id(old(store)@.feedback)
            },
        },
{
    let feedback = new_feedback(prompt_id, content);
    let copy = feedback.clone();
    proof {
        if holds_key(store@.feedback, feedback@.id) {
            let i = choose|i: int|
                0 <= i < store@.feedback.len() && (#[trigger] store@.feedback[i]).key()
                    == feedback@.id;
            assert(is_random_id(store@.feedback[i].key()));
        }
    }
    match insert_feedback(store, feedback) {
        Ok(()) => Ok(copy),
        Err(e) => Err(e),
    }
}

/// All feedback given on the prompt `prompt_id`, newest first. Feedback
/// given on another prompt is never among it.
pub fn get_feedback_for_prompt(store: &Store, prompt_id: &str) -> (res: Result<
    Vec<Feedback>,
    StorageError,
>)
    requires
        store@.wf(),
    ensures
        res matches Ok(list) && {
            &&& feedback_rows(list@) == store@.feedback_for(prompt_id@)
            &&& newest_first(feedback_rows(list@))
            &&& forall|i: int|
                0 <= i < list.len() ==> (#[trigger] feedback_rows(list@)[i]).prompt_id
                    == prompt_id@
        },
{
    let ghost all = store@.feedback;
    let ghost mine = owned_by(prompt_id@);
    let mut out: Vec<Feedback> = Vec::new();
    let mut i: usize = 0;
    proof {
        all.take(0).lemma_filter_len(mine);
    }
    while i < store.feedback.len()
        invariant
            i <= store.feedback.len(),
            all == store@.feedback,
            all.len() == store.feedback.len(),
            mine == owned_by(prompt_id@),
            feedback_rows(out@) =~= all.take(i as int).filter(mine),
        decreases store.feedback.len() - i,
    {
        proof {
            assert(all.take(i + 1) =~= all.take(i as int).push(all[i as int]));
            all.take(i as int).lemma_filter_push(all[i as int], mine);
        }
        if same(store.feedback[i].prompt_id.as_str(), prompt_id) {
            let ghost before = feedback_rows(out@);
            let copy = store.feedback[i].clone();
            out.push(copy);
            assert(feedback_rows(out@) =~= before.push(all[i as int]));
        }
        i += 1;
    }
    proof {
        assert(all.take(i as int) =~= all);
        lemma_filter_well_kept(all, mine);
        assert forall|k: int| 0 <= k < out.len() implies (#[trigger] feedback_rows(
            out@,
        )[k]).prompt_id == prompt_id@ by {
            all.lemma_filter_pred(mine, k);
        }
    }
    Ok(out)
}

/// Removes all feedback given on the prompt `prompt_id`: the first step
/// of deleting that prompt.
pub fn delete_feedback_for(store: &mut Store, prompt_id: &str)
    requires
        old(store)@.wf(),
    ensures
        final(store)@.wf(),
        final(store)@ == old(store)@.without_feedback_for(prompt_id@),
        old(store)@.references_resolve() ==> final(store)@.references_resolve(),
        final(store)@.feedback_for(prompt_id@).len() == 0,
{
    let ghost all = store@.feedback;
    let ghost others = not_owned_by(prompt_id@);
    let mut rows: Vec<Feedback> = Vec::new();
    std::mem::swap(&mut store.feedback, &mut rows);
    proof {
        all.take(0).lemma_filter_len(others);
    }
    for row in it: rows
        invariant
            feedback_rows(it.seq()) == all,
            others == not_owned_by(prompt_id@),
            store.prompts == old(store).prompts,
            feedback_rows(store.feedback@) =~= all.take(it.index()).filter(others),
    {
        proof {
            let i = it.index();
            assert(all.take(i + 1) =~= all.take(i).push(all[i]));
            all.take(i).lemma_filter_push(all[i], others);
        }
        if !same(row.prompt_id.as_str(), prompt_id) {
            let ghost before = feedback_rows(store.feedback@);
            let ghost kept = row@;
            store.feedback.push(row);
            assert(feedback_rows(store.feedback@) =~= before.push(kept));
        }
    }
    proof {
        assert(all.take(all.len() as int) =~= all);
        lemma_filter_well_kept(all, others);
        law_deleted_feedback_is_gone(old(store)@, prompt_id@);
    }
}

/// Removes the prompt `id` itself: the second step of deleting it. Feedback
/// that still names the prompt is left behind, its reference dangling.
pub fn delete_prompt_row(store: &mut Store, id: &str)
    requires
        old(store)@.wf(),
    ensures
        final(store)@.wf(),
        final(store)@ == old(store)@.without_prompt(id@),
        final(store)@.prompt(id@) is None,
{
    let ghost all = store@.prompts;
    let ghost others = not_keyed(id@);
    let mut rows: Vec<Prompt> = Vec::new();
    std::mem::swap(&mut store.prompts, &mut rows);
    proof {
        all.take(0).lemma_filter_len(others);
    }
    for row in it: rows
        invariant
            prompt_rows(it.seq()) == all,
            others == not_keyed(id@),
            store.feedback == old(store).feedback,
            prompt_rows(store.prompts@) =~= all.take(it.index()).filter(others),
    {
        proof {
            let i = it.index();
            assert(all.take(i + 1) =~= all.take(i).push(all[i]));
            all.take(i).lemma_filter_push(all[i], others);
        }
        if !same(row.id.as_str(), id) {
            let ghost before = prompt_rows(store.prompts@);
            let ghost kept = row@;
            store.prompts.push(row);
            assert(prompt_rows(store.prompts@) =~= before.push(kept));
        }
    }
    proof {
        assert(all.take(all.len() as int) =~= all);
        lemma_filter_well_kept(all, others);
        lemma_filter_titled(all, others);
        law_deleted_prompt_is_gone(old(store)@, id@);
    }
}

/// One step of deleting a prompt.
#[derive(Debug)]
pub enum Removal {
    /// Remove all feedback given on this prompt.
    FeedbackOf(String),
    /// Remove the row of this prompt.
    PromptRow(String),
}

/// `steps` deletes the prompt `id` with what depends on it: first all
/// feedback given on it, then the prompt itself.
pub open spec fn is_cascade(steps: Seq<Removal>, id: Seq<char>) -> bool {
    &&& steps.len() == 2
    &&& steps[0] matches Removal::FeedbackOf(owner) && owner@ == id
    &&& steps[1] matches Removal::PromptRow(key) && key@ == id
}

/// The store after `removal`.
pub open spec fn removes(before: StoreView, removal: Removal) -> StoreView {
    match removal {
        Removal::FeedbackOf(owner) => before.without_feedback_for(owner@),
        Removal::PromptRow(key) => before.without_prompt(key@),
    }
}

/// The steps that delete the prompt `id`, in the order in which they are
/// to be taken. Each is a step of its own: where one fails, those before
/// it stand and those after it are not taken.
pub fn delete_steps(id: &str) -> (steps: Vec<Removal>)
    ensures
        is_cascade(steps@, id@),
{
    let mut steps: Vec<Removal> = Vec::new();
    steps.push(Removal::FeedbackOf(id.to_owned()));
    steps.push(Removal::PromptRow(id.to_owned()));
    steps
}

/// Takes one step of deleting a prompt.
pub fn remove(store: &mut Store, removal: &Removal)
    requires
        old(store)@.wf(),
    ensures
        final(store)@.wf(),
        final(store)@ == removes(old(store)@, *removal),
{
    match removal {
        Removal::FeedbackOf(owner) => delete_feedback_for(store, owner.as_str()),
        Removal::PromptRow(key) => delete_prompt_row(store, key.as_str()),
    }
}

/// Deletes the prompt `id` together with the feedback given on it: first
/// the feedback, then the prompt. Deleting a prompt that is not there
/// changes nothing.
pub fn delete_prompt(store: &mut Store, id: &str) -> (res: Result<(), StorageError>)
    requires
        old(store)@.wf(),
    ensures
        res is Ok,
        final(store)@.wf(),
        final(store)@ == old(store)@.without_feedback_for(id@).without_prompt(id@),
        old(store)@.references_resolve() ==> final(store)@.references_resolve(),
        final(store)@.prompt(id@) is None,
        final(store)@.feedback_for(id@).len() == 0,
{
    let steps = delete_steps(id);
    remove(store, &steps[0]);
    remove(store, &steps[1]);
    proof {
        law_cascade(old(store)@, id@);
        if old(store)@.references_resolve() {
            law_cascade_keeps_references(old(store)@, id@);
        }
    }
    Ok(())
}

/// Once the feedback on a prompt is removed, none is listed for it, and
/// what is listed for any other prompt is what was listed before.
pub proof fn law_deleted_feedback_is_gone(s: StoreView, prompt_id: Seq<char>)
    ensures
        s.without_feedback_for(prompt_id).feedback_for(prompt_id).len() == 0,
        forall|other: Seq<char>|
            other != prompt_id ==> s.without_feedback_for(prompt_id).feedback_for(other)
                == s.feedback_for(other),
        s.references_resolve() ==> s.without_feedback_for(prompt_id).references_resolve(),
{
    let kept = s.feedback.filter(not_owned_by(prompt_id));
    assert forall|i: int| 0 <= i < kept.len() implies !(owned_by(prompt_id))(
        #[trigger] kept[i],
    ) && (s.references_resolve() ==> holds_key(s.prompts, kept[i].prompt_id)) by {
        s.feedback.lemma_filter_pred(not_owned_by(prompt_id), i);
        assert(kept.contains(kept[i]));
        s.feedback.lemma_filter_contains_rev(not_owned_by(prompt_id), kept[i]);
    }
    lemma_filter_none(kept, owned_by(prompt_id));
    assert forall|other: Seq<char>| other != prompt_id implies kept.filter(owned_by(other))
        == s.feedback.filter(owned_by(other)) by {
        lemma_filter_twice(s.feedback, not_owned_by(prompt_id), owned_by(other));
    }
}

/// Once a prompt is removed, it is not found, every other prompt is found
/// as before, and all feedback is listed as before.
pub proof fn law_deleted_prompt_is_gone(s: StoreView, id: Seq<char>)
    requires
        s.wf(),
    ensures
        s.without_prompt(id).prompt(id) is None,
        forall|other: Seq<char>| other != id ==> s.without_prompt(id).prompt(other) == s.prompt(other),
        forall|any: Seq<char>| s.without_prompt(id).feedback_for(any) == s.feedback_for(any),
{
    let kept = s.prompts.filter(not_keyed(id));
    lemma_filter_well_kept(s.prompts, not_keyed(id));
    assert forall|i: int| 0 <= i < kept.len() implies (#[trigger] kept[i]).key() != id by {
        s.prompts.lemma_filter_pred(not_keyed(id), i);
    }
    assert forall|other: Seq<char>| other != id implies row_with_key(kept, other) == row_with_key(
        s.prompts,
        other,
    ) by {
        if holds_key(s.prompts, other) {
            let i = choose|i: int|
                0 <= i < s.prompts.len() && (#[trigger] s.prompts[i]).key() == other;
            lemma_row_with_key(s.prompts, i);
            s.prompts.lemma_filter_contains(not_keyed(id), i);
            let j = choose|j: int| 0 <= j < kept.len() && kept[j] == s.prompts[i];
            lemma_row_with_key(kept, j);
        }
    }
}

/// Identifiers are not given twice: a prompt filed after another bears a
/// different identifier, and so does feedback filed after other feedback.
pub proof fn law_identifiers_differ(
    s: StoreView,
    first: PromptView,
    second: PromptView,
    third: FeedbackView,
    fourth: FeedbackView,
)
    requires
        s.wf(),
    ensures
        !holds_key(s.prompts, first.id) && !holds_key(s.with_prompt(first).prompts, second.id)
            ==> first.id != second.id,
        !holds_key(s.feedback, third.id) && !holds_key(s.with_feedback(third).feedback, fourth.id)
            ==> third.id != fourth.id,
{
    if !holds_key(s.prompts, first.id) {
        lemma_filed_well_kept(s.prompts, first);
    }
    if !holds_key(s.feedback, third.id) {
        lemma_filed_well_kept(s.feedback, third);
    }
}

/// Feedback stays with its prompt: filing it changes the listing of the
/// prompt it names, where it takes the place its stamp gives it, and the
/// listing of no other prompt.
pub proof fn law_feedback_stays_with_its_prompt(s: StoreView, row: FeedbackView)
    requires
        s.wf(),
    ensures
        s.with_feedback(row).feedback_for(row.prompt_id) == filed(
            s.feedback_for(row.prompt_id),
            row,
        ),
        forall|other: Seq<char>|
            other != row.prompt_id ==> s.with_feedback(row).feedback_for(other) == s.feedback_for(
                other,
            ),
        s.with_feedback(row).prompts == s.prompts,
{
    law_filed_then_selected(s.feedback, row, owned_by(row.prompt_id));
    assert forall|other: Seq<char>| other != row.prompt_id implies s.with_feedback(
        row,
    ).feedback_for(other) == s.feedback_for(other) by {
        law_filed_then_selected(s.feedback, row, owned_by(other));
    }
}

/// The listings are newest first, and the latest row leads them: a
/// prompt whose stamp is not earlier than any other is listed first, and
/// so is feedback among the feedback on its prompt.
pub proof fn law_latest_is_listed_first(s: StoreView, prompt: PromptView, feedback: FeedbackView)
    requires
        s.wf(),
    ensures
        newest_first(s.prompts),
        forall|id: Seq<char>| newest_first(s.feedback_for(id)),
        (forall|i: int|
            0 <= i < s.prompts.len() ==> !sorts_before(
                prompt.created_at,
                (#[trigger] s.prompts[i]).created_at,
            )) ==> s.with_prompt(prompt).prompts == seq![prompt] + s.prompts,
        (forall|i: int|
            0 <= i < s.feedback.len() ==> !sorts_before(
                feedback.created_at,
                (#[trigger] s.feedback[i]).created_at,
            )) ==> s.with_feedback(feedback).feedback_for(feedback.prompt_id) == seq![feedback]
            + s.feedback_for(feedback.prompt_id),
{
    assert forall|id: Seq<char>| newest_first(s.feedback_for(id)) by {
        lemma_filter_well_kept(s.feedback, owned_by(id));
    }
    if forall|i: int|
        0 <= i < s.prompts.len() ==> !sorts_before(
            prompt.created_at,
            (#[trigger] s.prompts[i]).created_at,
        ) {
        assert forall|i: int| 0 <= i < s.prompts.len() implies !sorts_before(
            prompt.stamp(),
            (#[trigger] s.prompts[i]).stamp(),
        ) by {}
        law_latest_is_filed_first(s.prompts, prompt);
    }
    if forall|i: int|
        0 <= i < s.feedback.len() ==> !sorts_before(
            feedback.created_at,
            (#[trigger] s.feedback[i]).created_at,
        ) {
        let mine = owned_by(feedback.prompt_id);
        assert forall|i: int| 0 <= i < s.feedback.len() implies !sorts_before(
            feedback.stamp(),
            (#[trigger] s.feedback[i]).stamp(),
        ) by {}
        law_latest_is_filed_first(s.feedback, feedback);
        Seq::filter_distributes_over_add(seq![feedback], s.feedback, mine);
        assert(seq![feedback] =~= Seq::<FeedbackView>::empty().push(feedback));
        Seq::<FeedbackView>::empty().lemma_filter_push(feedback, mine);
        Seq::<FeedbackView>::empty().lemma_filter_len(mine);
        assert(seq![feedback].filter(mine) =~= seq![feedback]);
    }
}

/// Deleting a prompt takes its feedback with it: afterwards the prompt
/// is not found and no feedback is listed for it, while every other
/// prompt and its feedback are found and listed as before.
pub proof fn law_cascade(s: StoreView, id: Seq<char>)
    requires
        s.wf(),
    ensures
        s.without_feedback_for(id).without_prompt(id).prompt(id) is None,
        s.without_feedback_for(id).without_prompt(id).feedback_for(id).len() == 0,
        forall|other: Seq<char>|
            other != id ==> {
                &&& s.without_feedback_for(id).without_prompt(id).prompt(other) == s.prompt(other)
                &&& s.without_feedback_for(id).without_prompt(id).feedback_for(other)
                    == s.feedback_for(other)
            },
{
    let mid = s.without_feedback_for(id);
    law_deleted_feedback_is_gone(s, id);
    lemma_filter_well_kept(s.feedback, not_owned_by(id));
    law_deleted_prompt_is_gone(mid, id);
    assert forall|other: Seq<char>| other != id implies {
        &&& mid.without_prompt(id).prompt(other) == s.prompt(other)
        &&& mid.without_prompt(id).feedback_for(other) == s.feedback_for(other)
    } by {
        assert(mid.without_prompt(id).prompt(other) == mid.prompt(other));
        assert(mid.without_prompt(id).feedback_for(other) == mid.feedback_for(other));
        assert(mid.feedback_for(other) == s.feedback_for(other));
    }
}

/// Removing the feedback on a prompt first, then the prompt, leaves no
/// feedback without its prompt, if there was none before.
pub proof fn law_cascade_keeps_references(s: StoreView, id: Seq<char>)
    requires
        s.wf(),
        s.references_resolve(),
    ensures
        s.without_feedback_for(id).without_prompt(id).references_resolve(),
{
    let mid = s.without_feedback_for(id);
    let end = mid.without_prompt(id);
    law_deleted_feedback_is_gone(s, id);
    assert forall|i: int| 0 <= i < end.feedback.len() implies holds_key(
        end.prompts,
        (#[trigger] end.feedback[i]).prompt_id,
    ) by {
        let owner = end.feedback[i].prompt_id;
        s.feedback.lemma_filter_pred(not_owned_by(id), i);
        assert(holds_key(mid.prompts, owner));
        let m = choose|m: int| 0 <= m < s.prompts.len() && (#[trigger] s.prompts[m]).key() == owner;
        s.prompts.lemma_filter_contains(not_keyed(id), m);
        let j = choose|j: int| 0 <= j < end.prompts.len() && end.prompts[j] == s.prompts[m];
        assert(end.prompts[j].key() == owner);
    }
}

/// Filing a prompt with a title among prompts with titles leaves every
/// prompt with a title.
proof fn lemma_filed_titled(rows: Seq<PromptView>, row: PromptView)
    requires
        titled(rows),
        row.title.len() > 0,
    ensures
        titled(filed(rows, row)),
{
    let k = slot_for(rows, row.stamp());
    let out = filed(rows, row);
    lemma_slot_for(rows, row.stamp());
    assert forall|i: int| 0 <= i < out.len() implies (#[trigger] out[i]).title.len() > 0 by {
        if i < k {
            assert(out[i] == rows[i]);
        } else if i > k {
            assert(out[i] == rows[i - 1]);
        }
    }
}

/// A selection of prompts with titles holds only prompts with titles.
proof fn lemma_filter_titled(rows: Seq<PromptView>, keep: spec_fn(PromptView) -> bool)
    requires
        titled(rows),
    ensures
        titled(rows.filter(keep)),
{
    let out = rows.filter(keep);
    assert forall|i: int| 0 <= i < out.len() implies (#[trigger] out[i]).title.len() > 0 by {
        assert(out.contains(out[i]));
        rows.lemma_filter_contains_rev(keep, out[i]);
        let m = choose|m: int| 0 <= m < rows.len() && rows[m] == out[i];
        assert(rows[m].title.len() > 0);
    }
}

/// A selection in which no row passes `pred` is empty under `pred`.
proof fn lemma_filter_none<A>(rows: Seq<A>, pred: spec_fn(A) -> bool)
    requires
        forall|i: int| 0 <= i < rows.len() ==> !pred(#[trigger] rows[i]),
    ensures
        rows.filter(pred).len() == 0,
    decreases rows.len(),
{
    reveal(Seq::filter);
    if rows.len() > 0 {
        let front = rows.drop_last();
        assert forall|i: int| 0 <= i < front.len() implies !pred(#[trigger] front[i]) by {
            assert(front[i] == rows[i]);
        }
        lemma_filter_none(front, pred);
    }
}

/// Selecting by `second` what was selected by `first` is selecting by
/// `second` alone, where `second` admits only what `first` admits.
proof fn lemma_filter_twice<A>(rows: Seq<A>, first: spec_fn(A) -> bool, second: spec_fn(A) -> bool)
    requires
        forall|a: A| #[trigger] second(a) ==> first(a),
    ensures
        rows.filter(first).filter(second) == rows.filter(second),
    decreases rows.len(),
{
    reveal(Seq::filter);
    if rows.len() > 0 {
        let front = rows.drop_last();
        lemma_filter_twice(front, first, second);
        if first(rows.last()) {
            front.filter(first).lemma_filter_push(rows.last(), second);
        }
    }
}

/// Finding a prompt after filing it gives that prompt back, and every
/// other identifier finds what it found before.
pub proof fn law_created_prompt_is_found(s: StoreView, row: PromptView)
    requires
        s.wf(),
        !holds_key(s.prompts, row.id),
    ensures
        s.with_prompt(row).prompt(row.id) == Some(row),
        forall|id: Seq<char>| id != row.id ==> s.with_prompt(row).prompt(id) == s.prompt(id),
        s.with_prompt(row).feedback == s.feedback,
{
    let out = s.with_prompt(row).prompts;
    let k = slot_for(s.prompts, row.created_at);
    lemma_slot_for(s.prompts, row.created_at);
    lemma_filed_well_kept(s.prompts, row);
    assert(out[k] == row);
    lemma_row_with_key(out, k);
    assert forall|id: Seq<char>| id != row.id implies s.with_prompt(row).prompt(id) == s.prompt(
        id,
    ) by {
        if holds_key(s.prompts, id) {
            let i = choose|i: int| 0 <= i < s.prompts.len() && (#[trigger] s.prompts[i]).key() == id;
            lemma_row_with_key(s.prompts, i);
            let j = if i < k { i } else { i + 1 };
            assert(out[j] == s.prompts[i]);
            lemma_row_with_key(out, j);
        }
    }
}

} // verus!
