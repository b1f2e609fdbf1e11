//! The ranking that is stored, and the one that is on the screen.
use crate::actions;
use crate::actions::{also, also_all, log, no_actions, say, Action, ActionView, LogLevel};
use crate::library::Library;
use crate::rank_preview;
use crate::rank_preview::SmartRankView;
use crate::rank_scan;
use crate::rank_scan::SmartRankState;
use crate::rank_state::{
    SmartRankCache, SmartRankMode, SmartRankRefreshMode, SMART_RANK_CACHE_VERSION,
};
use crate::text;
use crate::text::{concat2, show_u64};
use vstd::prelude::*;

verus! {

/// What was found where the last ranking is stored.
pub enum StoredRanking {
    Absent,
    /// There is something, but it could not be read.
    Unreadable,
    /// What is there makes no sense.
    Broken(String),
    Found(SmartRankCache),
}

/// Whether a stored ranking is used: it is of this version and holds something.
pub open spec fn is_usable(cache: SmartRankCache) -> bool {
    cache.version == SMART_RANK_CACHE_VERSION && (cache.result is Some || cache.mods@.dom().len()
        > 0)
}

pub open spec fn stored_says(stored: StoredRanking) -> Seq<ActionView> {
    match stored {
        StoredRanking::Absent => seq![
            ActionView::Log(LogLevel::Info, "Smart rank cache not found"@),
        ],
        StoredRanking::Unreadable => Seq::empty(),
        StoredRanking::Broken(error) => seq![
            ActionView::Log(LogLevel::Warn, "Smart rank cache load failed: "@ + error@),
        ],
        StoredRanking::Found(cache) => if cache.version != SMART_RANK_CACHE_VERSION {
            seq![
                ActionView::Log(
                    LogLevel::Warn,
                    "Smart rank cache version mismatch: "@ + text::decimal(cache.version as nat),
                ),
            ]
        } else if !is_usable(cache) {
            seq![ActionView::Log(LogLevel::Warn, "Smart rank cache empty"@)]
        } else {
            (if cache.result is None {
                seq![
                    ActionView::Log(
                        LogLevel::Warn,
                        "Smart rank cache missing result; using cached mod data"@,
                    ),
                ]
            } else {
                Seq::empty()
            }).push(ActionView::Log(LogLevel::Info, "Smart rank cache loaded"@))
        },
    }
}

impl SmartRankState {
    /// Takes over the ranking that is stored.
    pub fn load_smart_rank_cache(&mut self, stored: StoredRanking) -> (out: Vec<Action>)
        ensures
            *final(self) == (match stored {
                StoredRanking::Found(cache) => if is_usable(cache) {
                    SmartRankState { cache: Some(cache), ..*old(self) }
                } else {
                    *old(self)
                },
                _ => *old(self),
            }),
            actions::action_views(out@) == stored_says(stored),
    {
        let mut out = no_actions();
        match stored {
            StoredRanking::Absent => {
                log(&mut out, LogLevel::Info, "Smart rank cache not found");
            },
            StoredRanking::Unreadable => {},
            StoredRanking::Broken(error) => {
                log(
                    &mut out,
                    LogLevel::Warn,
                    concat2("Smart rank cache load failed: ", error.as_str()).as_str(),
                );
            },
            StoredRanking::Found(cache) => {
                if cache.version != SMART_RANK_CACHE_VERSION {
                    log(
                        &mut out,
                        LogLevel::Warn,
                        concat2(
                            "Smart rank cache version mismatch: ",
                            show_u64(cache.version as u64).as_str(),
                        ).as_str(),
                    );
                } else if cache.result.is_none() && cache.mods.len() == 0 {
                    log(&mut out, LogLevel::Warn, "Smart rank cache empty");
                } else {
                    if cache.result.is_none() {
                        log(
                            &mut out,
                            LogLevel::Warn,
                            "Smart rank cache missing result; using cached mod data",
                        );
                    }
                    log(&mut out, LogLevel::Info, "Smart rank cache loaded");
                    self.cache = Some(cache);
                }
            },
        }
        assert(actions::action_views(out@) =~= stored_says(stored));
        out
    }

    /// Ranks the mods for the user to see, unless something stands in the way.
    pub fn open_smart_rank_preview(
        &mut self,
        library: &Library,
        keys: &Vec<String>,
        busy: bool,
        paths_ready: bool,
    ) -> (out: Vec<Action>)
        requires
            keys@.len() == library.mods@.len(),
        ensures
            if old(self).active {
                &&& *final(self) == *old(self)
                &&& actions::action_views(out@) == seq![
                    ActionView::Status("Smart ranking already running"@),
                ]
            } else if busy || !paths_ready {
                &&& *final(self) == *old(self)
                &&& actions::action_views(out@) == blocked_says(
                    if busy {
                        "Smart ranking blocked: busy"@
                    } else {
                        "Smart ranking blocked: paths not set"@
                    },
                )
            } else {
                rank_scan::start_step(
                    *final(self),
                    *old(self),
                    *library,
                    keys@,
                    SmartRankMode::Preview,
                    SmartRankRefreshMode::Incremental,
                    actions::action_views(out@),
                )
            },
    {
        let mut out = no_actions();
        if self.active {
            say(&mut out, "Smart ranking already running");
            assert(actions::action_views(out@) =~= seq![
                ActionView::Status("Smart ranking already running"@),
            ]);
            return out;
        }
        if busy || !paths_ready {
            let line = if busy {
                "Smart ranking blocked: busy"
            } else {
                "Smart ranking blocked: paths not set"
            };
            say(&mut out, line);
            log(&mut out, LogLevel::Warn, line);
            assert(actions::action_views(out@) =~= blocked_says(line@));
            return out;
        }
        self.start_smart_rank_scan(
            SmartRankMode::Preview,
            SmartRankRefreshMode::Incremental,
            library,
            keys,
        )
    }

    /// Forgets the last ranking, and sees to it that there is a new one.
    pub fn clear_smart_rank_cache(
        &mut self,
        library: &Library,
        keys: &Vec<String>,
        paths_ready: bool,
        now: u64,
    ) -> (out: Vec<Action>)
        requires
            keys@.len() == library.mods@.len(),
        ensures
            cache_cleared(
                *final(self),
                *old(self),
                *library,
                keys@,
                paths_ready,
                now,
                actions::action_views(out@),
            ),
    {
        let ghost start = *self;
        self.cache = None;
        self.refresh_at = None;
        let ghost bare = *self;
        let mut out = no_actions();
        also(&mut out, Action::ForgetRanking);
        if self.active {
            say(&mut out, "Smart rank cache cleared; warming up after scan");
            let ghost first = actions::action_views(out@);
            let more = self.schedule_smart_rank_refresh(
                SmartRankRefreshMode::Full,
                "cache cleared",
                false,
                now,
            );
            also_all(&mut out, more);
            assert(first =~= clear_says("Smart rank cache cleared; warming up after scan"@));
            return out;
        }
        if !paths_ready {
            say(&mut out, "Smart rank cache cleared");
            assert(actions::action_views(out@) =~= clear_says("Smart rank cache cleared"@));
            return out;
        }
        say(&mut out, "Smart rank cache cleared; warming up");
        let ghost first = actions::action_views(out@);
        let more = self.start_smart_rank_scan(
            SmartRankMode::Warmup,
            SmartRankRefreshMode::Full,
            library,
            keys,
        );
        let ghost said = actions::action_views(more@);
        also_all(&mut out, more);
        proof {
            assert(first =~= clear_says("Smart rank cache cleared; warming up"@));
            assert(clear_started(
                *self,
                bare,
                *library,
                keys@,
                said,
                actions::action_views(out@),
            ));
        }
        out
    }

    /// Takes the ranking on the screen over into the library.
    pub fn apply_smart_rank_preview(&mut self, library: &mut Library) -> (out: Vec<Action>)
        ensures
            match old(self).preview {
                Some(p) => {
                    &&& *final(self) == (SmartRankState {
                        preview: None,
                        scroll: 0,
                        view: SmartRankView::Changes,
                        ..*old(self)
                    })
                    &&& rank_preview::preview_applied(
                        *final(library),
                        *old(library),
                        p,
                        actions::action_views(out@),
                    )
                },
                None => *final(self) == *old(self) && *final(library) == *old(library)
                    && out@.len() == 0,
            },
    {
        match self.preview.take() {
            Some(p) => {
                self.scroll = 0;
                self.view = SmartRankView::Changes;
                library.apply_smart_rank_preview(p)
            },
            None => no_actions(),
        }
    }

    /// Takes the ranking off the screen.
    pub fn cancel_smart_rank_preview(&mut self) -> (out: Vec<Action>)
        ensures
            *final(self) == (SmartRankState {
                preview: None,
                scroll: 0,
                view: SmartRankView::Changes,
                ..*old(self)
            }),
            actions::action_views(out@) == if old(self).preview is Some {
                seq![ActionView::Status("Smart ranking canceled"@)]
            } else {
                Seq::empty()
            },
    {
        let mut out = no_actions();
        if self.preview.is_some() {
            say(&mut out, "Smart ranking canceled");
        }
        self.preview = None;
        self.scroll = 0;
        self.view = SmartRankView::Changes;
        assert(actions::action_views(out@) =~= if old(self).preview is Some {
            seq![ActionView::Status("Smart ranking canceled"@)]
        } else {
            Seq::empty()
        });
        out
    }
}

pub open spec fn blocked_says(line: Seq<char>) -> Seq<ActionView> {
    seq![ActionView::Status(line), ActionView::Log(LogLevel::Warn, line)]
}

pub open spec fn clear_says(line: Seq<char>) -> Seq<ActionView> {
    seq![ActionView::ForgetRanking, ActionView::Status(line)]
}

/// Whether a new ranking was begun, which said something of its own.
pub open spec fn clear_started(
    after: SmartRankState,
    bare: SmartRankState,
    library: Library,
    keys: Seq<String>,
    said: Seq<ActionView>,
    says: Seq<ActionView>,
) -> bool {
    &&& rank_scan::start_step(
        after,
        bare,
        library,
        keys,
        SmartRankMode::Warmup,
        SmartRankRefreshMode::Full,
        said,
    )
    &&& says == clear_says("Smart rank cache cleared; warming up"@) + said
}

pub open spec fn begins_anew(
    after: SmartRankState,
    bare: SmartRankState,
    library: Library,
    keys: Seq<String>,
    says: Seq<ActionView>,
) -> bool {
    exists|said: Seq<ActionView>| #[trigger]
        clear_started(after, bare, library, keys, said, says)
}

/// What forgetting the last ranking comes to.
pub open spec fn cache_cleared(
    after: SmartRankState,
    before: SmartRankState,
    library: Library,
    keys: Seq<String>,
    paths_ready: bool,
    now: u64,
    says: Seq<ActionView>,
) -> bool {
    let bare = SmartRankState { cache: None, refresh_at: None, ..before };
    if before.active {
        &&& after == rank_scan::scheduled(bare, SmartRankRefreshMode::Full, false, now)
        &&& says == clear_says("Smart rank cache cleared; warming up after scan"@)
            + rank_scan::schedule_says(bare, SmartRankRefreshMode::Full, "cache cleared"@)
    } else if !paths_ready {
        after == bare && says == clear_says("Smart rank cache cleared"@)
    } else {
        begins_anew(after, bare, library, keys, says)
    }
}

/// A ranking that was forgotten is not used again.
pub proof fn law_forgotten_is_gone(
    after: SmartRankState,
    before: SmartRankState,
    library: Library,
    keys: Seq<String>,
    paths_ready: bool,
    now: u64,
    says: Seq<ActionView>,
)
    requires
        cache_cleared(after, before, library, keys, paths_ready, now, says),
    ensures
        after.cache is None,
{
}

} // verus!
