use crate::config::{Config, DownloadMode};
use crate::episode::Episode;
use crate::external::{join_path, joined_path};
use crate::ledger::DownloadedEpisodes;
use crate::select::{kept, mode_allows, reverse_vec, selection, wanted};
use vstd::prelude::*;

verus! {

/// A configured podcast with the ledger of what was downloaded before.
#[derive(Clone, Debug)]
pub struct Podcast {
    pub name: String,
    pub config: Config,
    pub downloaded: DownloadedEpisodes,
}

impl Podcast {
    pub open spec fn wf(&self) -> bool {
        self.config.mode.wf()
    }

    /// Where this podcast's episodes are downloaded to.
    pub fn download_folder(&self) -> (r: String)
        ensures
            r@ == joined_path(self.config.download_path@, self.name@),
    {
        join_path(self.config.download_path.as_str(), self.name.as_str())
    }

    /// Whether `episode`, of a feed of `latest_episode` entries, is to be downloaded at `now`.
    pub fn should_download(&self, episode: &Episode, latest_episode: usize, now: i64) -> (r: bool)
        requires
            self.wf(),
        ensures
            r == wanted(self.config.mode, self.downloaded.ids(), *episode, latest_episode as int, now),
    {
        if self.downloaded.contains_episode(episode) {
            return false;
        }
        mode_allows(&self.config.mode, episode, latest_episode, now)
    }

    /// The episodes of a feed to download at `now`, in the order to download
    /// them: newest first in standard mode, oldest first in backlog mode.
    pub fn select_episodes(&self, episodes: Vec<Episode>, now: i64) -> (r: Vec<Episode>)
        requires
            self.wf(),
        ensures
            r@ == selection(self.config.mode, self.downloaded.ids(), episodes@, now),
    {
        let total = episodes.len();
        let ghost eps = episodes@;
        let ghost done = self.downloaded.ids();
        let ghost mode = self.config.mode;
        let mut rest = episodes;
        let mut newest_first: Vec<Episode> = Vec::new();
        while rest.len() > 0
            invariant
                self.wf(),
                total == eps.len(),
                mode == self.config.mode,
                done == self.downloaded.ids(),
                rest@ == eps.take(rest@.len() as int),
                rest@.len() <= eps.len(),
                kept(mode, done, eps, total as int, now) == kept(
                    mode,
                    done,
                    rest@,
                    total as int,
                    now,
                ) + newest_first@.reverse(),
            decreases rest@.len(),
        {
            let ghost before = rest@;
            let e = rest.pop().unwrap();
            proof {
                assert(before.drop_last() =~= rest@);
                assert(before.last() == e);
                reveal(Seq::filter);
                assert(rest@ =~= eps.take(rest@.len() as int));
            }
            if self.should_download(&e, total, now) {
                let ghost old_out = newest_first@;
                newest_first.push(e);
                assert(newest_first@.reverse() =~= seq![e] + old_out.reverse());
                assert(kept(mode, done, before, total as int, now) == kept(mode, done, rest@, total as int, now).push(e));
                assert(kept(mode, done, rest@, total as int, now).push(e) + old_out.reverse()
                    =~= kept(mode, done, rest@, total as int, now) + newest_first@.reverse());
            } else {
                assert(kept(mode, done, before, total as int, now) == kept(mode, done, rest@, total as int, now));
            }
        }
        proof {
            reveal(Seq::filter);
            assert(rest@.len() == 0);
            assert(kept(mode, done, rest@, total as int, now) =~= Seq::<Episode>::empty());
            assert(kept(mode, done, eps, total as int, now) =~= newest_first@.reverse());
        }
        match self.config.mode {
            DownloadMode::Standard { .. } => {
                assert(newest_first@ =~= newest_first@.reverse().reverse());
                newest_first
            },
            DownloadMode::Backlog { .. } => reverse_vec(newest_first),
        }
    }
}

/// Where one podcast's sync run stands. Episodes are counted by their
/// position in the selection.
#[derive(Clone, Copy, Debug, PartialEq, Eq, Structural)]
pub enum SyncState {
    Fetching,
    Selecting,
    Transferring(usize),
    Recording(usize),
    Naming(usize),
    Hooking(usize),
    Done,
    Failed,
}

/// How the work of the current state ended.
#[derive(Clone, Copy, Debug, PartialEq, Eq, Structural)]
pub enum StepOutcome {
    Succeeded,
    Failed,
}

/// The state after episode `i`'s work is finished.
pub open spec fn after_episode(i: usize, selected: usize) -> SyncState {
    if i + 1 < selected {
        SyncState::Transferring((i + 1) as usize)
    } else {
        SyncState::Done
    }
}

/// The sync run's next state: episodes are handled one at a time, each
/// transferred, then recorded in the ledger, then named, then handed to the
/// hook where one is set; any failure ends the run, and `Done` and `Failed`
/// are final.
pub open spec fn next_state(
    state: SyncState,
    outcome: StepOutcome,
    selected: usize,
    has_hook: bool,
) -> SyncState {
    match state {
        SyncState::Done => SyncState::Done,
        SyncState::Failed => SyncState::Failed,
        _ => if outcome is Failed {
            SyncState::Failed
        } else {
            match state {
                SyncState::Fetching => SyncState::Selecting,
                SyncState::Selecting => if selected == 0 {
                    SyncState::Done
                } else {
                    SyncState::Transferring(0)
                },
                SyncState::Transferring(i) => SyncState::Recording(i),
                SyncState::Recording(i) => SyncState::Naming(i),
                SyncState::Naming(i) => if has_hook {
                    SyncState::Hooking(i)
                } else {
                    after_episode(i, selected)
                },
                SyncState::Hooking(i) => after_episode(i, selected),
                _ => state,
            }
        },
    }
}

fn next_episode(i: usize, selected: usize) -> (n: SyncState)
    ensures
        n == after_episode(i, selected),
{
    if i < selected && i + 1 < selected {
        SyncState::Transferring(i + 1)
    } else {
        SyncState::Done
    }
}

impl SyncState {
    /// The state that follows this one when its work ended with `outcome`,
    /// for a selection of `selected` episodes.
    pub fn step(self, outcome: StepOutcome, selected: usize, has_hook: bool) -> (r: SyncState)
        ensures
            r == next_state(self, outcome, selected, has_hook),
    {
        match self {
            SyncState::Done => SyncState::Done,
            SyncState::Failed => SyncState::Failed,
            _ => match outcome {
                StepOutcome::Failed => SyncState::Failed,
                StepOutcome::Succeeded => match self {
                    SyncState::Fetching => SyncState::Selecting,
                    SyncState::Selecting => if selected == 0 {
                        SyncState::Done
                    } else {
                        SyncState::Transferring(0)
                    },
                    SyncState::Transferring(i) => SyncState::Recording(i),
                    SyncState::Recording(i) => SyncState::Naming(i),
                    SyncState::Naming(i) => if has_hook {
                        SyncState::Hooking(i)
                    } else {
                        next_episode(i, selected)
                    },
                    SyncState::Hooking(i) => next_episode(i, selected),
                    _ => self,
                },
            },
        }
    }
}

} // verus!
