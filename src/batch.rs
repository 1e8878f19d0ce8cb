//! The order in which a batch is written: the vocabulary statement first,
//! retried after a rolled-back deadlock, then for each ingestible page in
//! turn its website upsert and the replacement of its keyword and link rows.
//! The caller runs each action and reports how it ended.

use vstd::prelude::*;
use crate::persist::{
    are_link_rows, are_occurrence_rows, are_vocabulary_rows, has_no_keyword, is_ingestible,
    is_ingestible_page, is_website_row, keyword_id_map, keyword_ids, keyword_occurrences, link_rows,
    vocabulary_rows, website_row, KeywordOccurrence, WebsiteLink, WebsiteRow,
};
use crate::retry::{DeadlockRetry, DEADLOCK_CODE};
use crate::webpage::Webpage;
use crate::word_map::WordMap;

verus! {

pub enum WriteAction {
    /// Run the vocabulary statement with these rows, in a transaction.
    UpsertVocabulary { rows: Vec<(Vec<u8>, u64)> },
    /// The failed attempt was rolled back: sleep, then run the vocabulary
    /// statement again with these rows, the same as before.
    RetryVocabulary { delay_ms: u64, rows: Vec<(Vec<u8>, u64)> },
    /// Upsert the website row of the page at index `page`.
    UpsertWebsite { page: usize, row: WebsiteRow },
    /// Delete the site's keyword and link rows, then insert these.
    ReplaceChildren { website_id: i64, keywords: Vec<KeywordOccurrence>, links: Vec<WebsiteLink> },
    /// The batch is written.
    Finished,
    /// The batch ends unwritten from here on.
    Abort,
}

#[derive(Clone, Copy, Debug, PartialEq, Eq, Structural)]
pub enum WriteStage {
    Vocabulary,
    Website,
    Children,
    Finished,
    Aborted,
}

pub open spec fn is_deadlock(error_code: Option<&str>) -> bool {
    match error_code {
        Some(code) => code@ == DEADLOCK_CODE@,
        None => false,
    }
}

/// The first ingestible page at or after `from`, or the batch's length.
pub open spec fn next_ingestible(ps: Seq<Webpage>, from: int) -> int
    decreases ps.len() - from,
{
    if from < 0 || from >= ps.len() {
        ps.len() as int
    } else if is_ingestible(ps[from]) {
        from
    } else {
        next_ingestible(ps, from + 1)
    }
}

/// `a` writes the first ingestible page at or after `from`, or ends the
/// batch when there is none.
pub open spec fn is_page_action(a: WriteAction, ps: Seq<Webpage>, from: int) -> bool {
    let k = next_ingestible(ps, from);
    if k < ps.len() {
        a matches WriteAction::UpsertWebsite { page, row } && page == k && is_website_row(row, ps[k])
    } else {
        a matches WriteAction::Finished
    }
}

/// `a` is the page action from `from`, and `w` the writer after it: on
/// that page's website stage, or finished.
pub open spec fn is_page_step(a: WriteAction, w: BatchWriter, ps: Seq<Webpage>, from: int) -> bool {
    &&& is_page_action(a, ps, from)
    &&& a is UpsertWebsite ==> w.stage() == WriteStage::Website && w.page() == next_ingestible(ps, from)
    &&& a is Finished ==> w.stage() == WriteStage::Finished
}

pub struct BatchWriter {
    pages: Ghost<Seq<Webpage>>,
    stage: WriteStage,
    retry: DeadlockRetry,
    ids: WordMap<i64>,
    page: usize,
}

impl BatchWriter {
    pub closed spec fn batch(&self) -> Seq<Webpage> {
        self.pages@
    }

    pub closed spec fn stage(&self) -> WriteStage {
        self.stage
    }

    /// The keyword ids the vocabulary statement returned.
    pub closed spec fn ids(&self) -> Map<Seq<u8>, i64> {
        self.ids@
    }

    /// The page being written.
    pub closed spec fn page(&self) -> int {
        self.page as int
    }

    pub closed spec fn base_delay(&self) -> nat {
        self.retry.base_delay()
    }

    pub closed spec fn deadlocks(&self) -> nat {
        self.retry.failed_attempts()
    }

    pub closed spec fn wf(&self) -> bool {
        &&& self.retry.wf()
        &&& self.ids.wf()
        &&& self.stage == WriteStage::Vocabulary ==> !has_no_keyword(self.pages@)
        &&& self.page <= self.pages@.len()
        &&& (self.stage == WriteStage::Website || self.stage == WriteStage::Children) ==> {
            &&& self.page < self.pages@.len()
            &&& is_ingestible(self.pages@[self.page as int])
        }
    }

    fn page_action(&mut self, pages: &Vec<Webpage>, from: usize) -> (a: WriteAction)
        requires
            old(self).wf(),
            pages@ == old(self).batch(),
            from <= pages@.len(),
        ensures
            final(self).wf(),
            final(self).batch() == old(self).batch(),
            final(self).ids() == old(self).ids(),
            final(self).deadlocks() == old(self).deadlocks(),
            final(self).base_delay() == old(self).base_delay(),
            is_page_step(a, *final(self), pages@, from as int),
    {
        let mut i: usize = from;
        while i < pages.len()
            invariant
                *self == *old(self),
                self.wf(),
                pages@ == self.batch(),
                from <= i <= pages@.len(),
                next_ingestible(pages@, from as int) == next_ingestible(pages@, i as int),
            decreases pages@.len() - i,
        {
            if is_ingestible_page(&pages[i]) {
                match website_row(&pages[i]) {
                    Some(row) => {
                        self.stage = WriteStage::Website;
                        self.page = i;
                        return WriteAction::UpsertWebsite { page: i, row };
                    },
                    None => {},
                }
            }
            i = i + 1;
        }
        self.stage = WriteStage::Finished;
        WriteAction::Finished
    }

    /// A writer for `pages` with the base delay drawn, and its first
    /// action: the vocabulary statement, or, when the batch has no keyword,
    /// the first page's website upsert, or the end of a batch with no
    /// ingestible page.
    pub fn start(pages: &Vec<Webpage>) -> (r: (BatchWriter, WriteAction))
        ensures
            r.0.wf(),
            r.0.batch() == pages@,
            r.0.deadlocks() == 0,
            100 <= r.0.base_delay() <= 500,
            r.0.ids() == Map::<Seq<u8>, i64>::empty(),
            !has_no_keyword(pages@) ==> r.0.stage() == WriteStage::Vocabulary && (r.1 matches WriteAction::UpsertVocabulary { rows } && are_vocabulary_rows(rows@, pages@)),
            has_no_keyword(pages@) ==> is_page_step(r.1, r.0, pages@, 0),
            pages@.len() == 0 ==> r.1 is Finished,
    {
        let vocabulary = vocabulary_rows(pages);
        let mut w = BatchWriter {
            pages: Ghost(pages@),
            stage: if vocabulary.is_some() {
                WriteStage::Vocabulary
            } else {
                WriteStage::Finished
            },
            retry: DeadlockRetry::new(),
            ids: WordMap::new(),
            page: 0,
        };
        match vocabulary {
            Some(rows) => (w, WriteAction::UpsertVocabulary { rows }),
            None => {
                let a = w.page_action(pages, 0);
                proof {
                    if pages@.len() == 0 {
                        assert(next_ingestible(pages@, 0) == 0);
                    }
                }
                (w, a)
            },
        }
    }

    /// The vocabulary statement committed and returned these `(id, word)`
    /// rows: the ids are kept and the first page is written.
    pub fn on_vocabulary_committed(&mut self, pages: &Vec<Webpage>, returned: &Vec<(i64, String)>) -> (a: WriteAction)
        requires
            old(self).wf(),
            pages@ == old(self).batch(),
        ensures
            final(self).wf(),
            final(self).batch() == old(self).batch(),
            old(self).stage() == WriteStage::Vocabulary ==> {
                &&& final(self).ids() == keyword_id_map(returned@)
                &&& is_page_step(a, *final(self), pages@, 0)
            },
            old(self).stage() != WriteStage::Vocabulary ==> a is Abort && final(self).stage() == WriteStage::Aborted,
    {
        if self.stage != WriteStage::Vocabulary {
            self.stage = WriteStage::Aborted;
            return WriteAction::Abort;
        }
        self.ids = keyword_ids(returned);
        self.page_action(pages, 0)
    }

    /// The vocabulary statement failed with `error_code` and was rolled
    /// back: a deadlock is retried after the next backoff delay, any other
    /// failure ends the batch.
    pub fn on_vocabulary_failed(&mut self, pages: &Vec<Webpage>, error_code: Option<&str>) -> (a: WriteAction)
        requires
            old(self).wf(),
            pages@ == old(self).batch(),
        ensures
            final(self).wf(),
            final(self).batch() == old(self).batch(),
            final(self).ids() == old(self).ids(),
            final(self).base_delay() == old(self).base_delay(),
            (old(self).stage() == WriteStage::Vocabulary && is_deadlock(error_code)) ==> {
                &&& final(self).stage() == WriteStage::Vocabulary
                &&& final(self).deadlocks() == if old(self).deadlocks() < u32::MAX {
                    old(self).deadlocks() + 1
                } else {
                    old(self).deadlocks()
                }
                &&& a matches WriteAction::RetryVocabulary { delay_ms, rows }
                &&& delay_ms == final(self).base_delay() * final(self).deadlocks()
                &&& are_vocabulary_rows(rows@, pages@)
            },
            !(old(self).stage() == WriteStage::Vocabulary && is_deadlock(error_code)) ==> {
                &&& a is Abort
                &&& final(self).stage() == WriteStage::Aborted
            },
    {
        if self.stage != WriteStage::Vocabulary {
            self.stage = WriteStage::Aborted;
            return WriteAction::Abort;
        }
        match self.retry.on_failure(error_code) {
            Some(delay_ms) => match vocabulary_rows(pages) {
                Some(rows) => WriteAction::RetryVocabulary { delay_ms, rows },
                None => {
                    self.stage = WriteStage::Aborted;
                    WriteAction::Abort
                },
            },
            None => {
                self.stage = WriteStage::Aborted;
                WriteAction::Abort
            },
        }
    }

    /// The page's website row was upserted with id `website_id`: its keyword
    /// and link rows are replaced next.
    pub fn on_website_upserted(&mut self, pages: &Vec<Webpage>, website_id: i64) -> (a: WriteAction)
        requires
            old(self).wf(),
            pages@ == old(self).batch(),
        ensures
            final(self).wf(),
            final(self).batch() == old(self).batch(),
            final(self).ids() == old(self).ids(),
            old(self).stage() == WriteStage::Website ==> {
                &&& final(self).stage() == WriteStage::Children
                &&& final(self).page() == old(self).page()
                &&& a matches WriteAction::ReplaceChildren { website_id: id, keywords, links } && id == website_id
                    && are_occurrence_rows(keywords@, pages@[old(self).page()], website_id, old(self).ids())
                    && are_link_rows(links@, pages@[old(self).page()], website_id)
            },
            old(self).stage() != WriteStage::Website ==> a is Abort && final(self).stage() == WriteStage::Aborted,
    {
        if self.stage != WriteStage::Website {
            self.stage = WriteStage::Aborted;
            return WriteAction::Abort;
        }
        let page = &pages[self.page];
        let keywords = keyword_occurrences(page, website_id, &self.ids);
        let links = link_rows(page, website_id);
        self.stage = WriteStage::Children;
        WriteAction::ReplaceChildren { website_id, keywords, links }
    }

    /// The page's rows were replaced: the next ingestible page is written,
    /// or the batch is done.
    pub fn on_children_replaced(&mut self, pages: &Vec<Webpage>) -> (a: WriteAction)
        requires
            old(self).wf(),
            pages@ == old(self).batch(),
        ensures
            final(self).wf(),
            final(self).batch() == old(self).batch(),
            final(self).ids() == old(self).ids(),
            old(self).stage() == WriteStage::Children ==> is_page_step(a, *final(self), pages@, old(self).page() + 1),
            old(self).stage() != WriteStage::Children ==> a is Abort && final(self).stage() == WriteStage::Aborted,
    {
        if self.stage != WriteStage::Children {
            self.stage = WriteStage::Aborted;
            return WriteAction::Abort;
        }
        let n = pages.len();
        assert(self.page < n);
        let next = self.page + 1;
        self.page_action(pages, next)
    }
}

} // verus!
