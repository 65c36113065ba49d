//! The finalized headers that a node has on disk, one file per height.
//!
//! Reading and writing files is up to the caller: a store is loaded from the
//! files of a directory, and a header enters the store once its file has been
//! written.
use std::collections::BTreeMap;

use vstd::prelude::*;

use crate::abci::error::CosmosTxPoolError;
use crate::abci::genesis;
use crate::abci::genesis::InitChainRequest;
use crate::abci::messages::{InfoResponse, InitChainResponse};
use crate::abci::requests;
use crate::cosmos_types;
use crate::cosmos_types::{CosmosFinalizedHeader, FinalizedHeaderView};
use crate::json;
use crate::json::Json;
use crate::rlp::{RlpError, RlpErrorView};
use crate::text;

verus! {

broadcast use vstd::std_specs::btree::group_btree_axioms;

/// The sequence number of the genesis state.
pub const GENESIS_SEQ_NUM: u64 = 0;

/// The name of the file that holds the header of a height.
pub open spec fn name_of_height(height: u64) -> Seq<char> {
    text::decimal_text(height as nat) + ".rlp"@
}

/// The height whose header a file of this name holds.
pub open spec fn height_of_name(name: Seq<char>) -> Option<u64> {
    if name.len() >= 4 && name.skip(name.len() - 4) == ".rlp"@ {
        text::u64_of_text(name.take(name.len() - 4))
    } else {
        None
    }
}

/// The name of a header's file leads back to its height.
pub proof fn name_leads_to_height(height: u64)
    ensures
        height_of_name(name_of_height(height)) == Some(height),
{
    reveal_strlit(".rlp");
    let digits = text::decimal_text(height as nat);
    let name = name_of_height(height);
    assert(name.skip(name.len() - 4) =~= ".rlp"@);
    assert(name.take(name.len() - 4) =~= digits);
    text::u64_text_roundtrip(height);
}

/// A file of the store.
#[derive(Clone, Debug, PartialEq, Eq)]
pub struct StoredFile {
    pub name: String,
    pub bytes: Vec<u8>,
}

/// The names and the contents of some files.
pub open spec fn file_views(files: Seq<StoredFile>) -> Seq<(Seq<char>, Seq<u8>)> {
    Seq::new(files.len(), |i: int| (files[i].name@, files[i].bytes@))
}

/// The headers in some files. Files with other names are passed over; a later
/// file wins over an earlier one for the same height; a file that does not
/// hold a header fails the whole.
pub open spec fn loaded(files: Seq<(Seq<char>, Seq<u8>)>) -> Result<
    Map<u64, FinalizedHeaderView>,
    RlpErrorView,
>
    decreases files.len(),
{
    if files.len() == 0 {
        Ok(Map::empty())
    } else {
        match loaded(files.drop_last()) {
            Err(e) => Err(e),
            Ok(before) => match height_of_name(files.last().0) {
                None => Ok(before),
                Some(height) => match cosmos_types::parse_finalized_header(files.last().1) {
                    Err(e) => Err(e),
                    Ok(header) => Ok(before.insert(height, header)),
                },
            },
        }
    }
}

/// The headers of a run of commits, the last one of a height winning.
pub open spec fn committed(headers: Seq<FinalizedHeaderView>) -> Map<u64, FinalizedHeaderView>
    decreases headers.len(),
{
    if headers.len() == 0 {
        Map::empty()
    } else {
        committed(headers.drop_last()).insert(headers.last().height, headers.last())
    }
}

/// The file of a header.
pub open spec fn file_of(header: FinalizedHeaderView) -> (Seq<char>, Seq<u8>) {
    (name_of_height(header.height), header.rlp())
}

/// Reopening a store finds the headers that were committed to it.
pub proof fn reopening_finds_commits(headers: Seq<FinalizedHeaderView>)
    requires
        forall|i: int| 0 <= i < headers.len() ==> (#[trigger] headers[i]).fits(),
    ensures
        loaded(headers.map_values(|h: FinalizedHeaderView| file_of(h))) == Ok::<
            Map<u64, FinalizedHeaderView>,
            RlpErrorView,
        >(committed(headers)),
    decreases headers.len(),
{
    let files = headers.map_values(|h: FinalizedHeaderView| file_of(h));
    if headers.len() > 0 {
        let init = headers.drop_last();
        assert forall|i: int| 0 <= i < init.len() implies (#[trigger] init[i]).fits() by {
            assert(init[i] == headers[i]);
        }
        reopening_finds_commits(init);
        assert(files.drop_last() =~= init.map_values(|h: FinalizedHeaderView| file_of(h)));
        let last = headers[headers.len() - 1];
        assert(last.fits());
        name_leads_to_height(last.height);
        cosmos_types::finalized_header_roundtrip(last);
    }
}

/// What a sequence number asks for when the last height of a store is absent.
pub open spec fn height_or_genesis(height: Option<u64>) -> u64 {
    match height {
        Some(h) => h,
        None => GENESIS_SEQ_NUM,
    }
}

/// The headers of all heights that are on disk.
pub struct CosmosCommitStore {
    commits: BTreeMap<u64, CosmosFinalizedHeader>,
    first: Option<u64>,
    last: Option<u64>,
}

impl View for CosmosCommitStore {
    type V = Map<u64, FinalizedHeaderView>;

    closed spec fn view(&self) -> Map<u64, FinalizedHeaderView> {
        self.commits@.map_values(|h: CosmosFinalizedHeader| h@)
    }
}

impl CosmosCommitStore {
    /// The recorded ends are the ends of the store.
    pub closed spec fn wf(self) -> bool {
        &&& self.first is None <==> self.last is None
        &&& self.first matches Some(a) ==> is_least(self@, a)
        &&& self.last matches Some(b) ==> is_greatest(self@, b)
        &&& self.first is None ==> self@ == Map::<u64, FinalizedHeaderView>::empty()
    }

    /// A store without headers.
    pub fn empty() -> (store: Self)
        ensures
            store.wf(),
            store@ == Map::<u64, FinalizedHeaderView>::empty(),
    {
        let store = CosmosCommitStore { commits: BTreeMap::new(), first: None, last: None };
        assert(store@ =~= Map::<u64, FinalizedHeaderView>::empty());
        store
    }

    /// Opens a store from the files of its directory.
    pub fn new(files: &Vec<StoredFile>) -> (r: Result<Self, RlpError>)
        ensures
            match r {
                Ok(store) => store.wf() && loaded(file_views(files@)) == Ok::<
                    Map<u64, FinalizedHeaderView>,
                    RlpErrorView,
                >(store@),
                Err(e) => loaded(file_views(files@)) == Err::<
                    Map<u64, FinalizedHeaderView>,
                    RlpErrorView,
                >(e@),
            },
    {
        let ghost views = file_views(files@);
        let mut store = Self::empty();
        let mut i: usize = 0;
        assert(views.take(0) =~= Seq::empty());
        while i < files.len()
            invariant
                i <= files@.len(),
                views == file_views(files@),
                store.wf(),
                loaded(views.take(i as int)) == Ok::<Map<u64, FinalizedHeaderView>, RlpErrorView>(
                    store@,
                ),
            decreases files@.len() - i,
        {
            assert(views.take(i + 1).drop_last() =~= views.take(i as int));
            assert(views.take(i + 1).last() == (files@[i as int].name@, files@[i as int].bytes@));
            let height: Option<u64> = height_of_file(files[i].name.as_str());
            match height {
                Some(height) => {
                    match CosmosFinalizedHeader::decode_exact(files[i].bytes.as_slice()) {
                        Ok(header) => {
                            store.insert_at(height, header);
                        },
                        Err(e) => {
                            proof {
                                lemma_load_fails(views, i + 1);
                            }
                            return Err(e);
                        },
                    }
                },
                None => {},
            }
            i = i + 1;
        }
        assert(views.take(i as int) =~= views);
        Ok(store)
    }

    fn insert_at(&mut self, height: u64, header: CosmosFinalizedHeader)
        requires
            old(self).wf(),
        ensures
            final(self).wf(),
            final(self)@ == old(self)@.insert(height, header@),
    {
        let ghost before = self@;
        self.commits.insert(height, header);
        assert(self@ =~= before.insert(height, header@));
        self.first = match self.first {
            Some(a) => if a <= height {
                Some(a)
            } else {
                Some(height)
            },
            None => Some(height),
        };
        self.last = match self.last {
            Some(b) => if b >= height {
                Some(b)
            } else {
                Some(height)
            },
            None => Some(height),
        };
    }

    /// The file to write before a header is committed.
    pub fn file_for(header: &CosmosFinalizedHeader) -> (file: StoredFile)
        ensures
            (file.name@, file.bytes@) == file_of(header@),
    {
        StoredFile {
            name: text::format_u64(header.seq_num()).concat(".rlp"),
            bytes: header.encode(),
        }
    }

    /// Commits a header: `written` is the outcome of writing its file, and the
    /// header enters the store only where that worked.
    pub fn commit(&mut self, header: CosmosFinalizedHeader, written: Result<(), String>) -> (r:
        Result<(), String>)
        requires
            old(self).wf(),
        ensures
            final(self).wf(),
            r == written,
            final(self)@ == if written is Ok {
                old(self)@.insert(header@.height, header@)
            } else {
                old(self)@
            },
    {
        if written.is_ok() {
            let height: u64 = header.seq_num();
            self.insert_at(height, header);
        }
        written
    }

    /// Whether the store holds no header.
    pub fn is_empty(&self) -> (r: bool)
        requires
            self.wf(),
        ensures
            r == (self@ == Map::<u64, FinalizedHeaderView>::empty()),
    {
        let r: bool = self.first.is_none();
        proof {
            if let Some(a) = self.first {
                assert(self@.contains_key(a));
            }
        }
        r
    }

    /// The header of a height.
    pub fn get(&self, seq_num: u64) -> (r: Option<&CosmosFinalizedHeader>)
        ensures
            match r {
                Some(h) => self@.contains_key(seq_num) && self@[seq_num] == h@,
                None => !self@.contains_key(seq_num),
            },
    {
        self.commits.get(&seq_num)
    }

    /// The least height in the store.
    pub fn earliest(&self) -> (r: Option<u64>)
        requires
            self.wf(),
        ensures
            is_earliest(self@, r),
    {
        self.first
    }

    /// The greatest height in the store.
    pub fn latest(&self) -> (r: Option<u64>)
        requires
            self.wf(),
        ensures
            is_latest(self@, r),
    {
        self.last
    }

    /// The greatest height in the store, or that of the genesis state.
    pub fn latest_or_genesis(&self) -> (h: u64)
        requires
            self.wf(),
        ensures
            h == latest_height(self@),
    {
        proof {
            lemma_latest_height(self@, self.last);
        }
        match self.last {
            Some(h) => h,
            None => GENESIS_SEQ_NUM,
        }
    }
}

/// A store has a greatest height unless it is empty.
pub proof fn lemma_has_latest(store: CosmosCommitStore)
    requires
        store.wf(),
    ensures
        exists|r: Option<u64>| is_latest(store@, r),
{
    assert(is_latest(store@, store.last));
}

proof fn lemma_load_fails(files: Seq<(Seq<char>, Seq<u8>)>, n: int)
    requires
        0 <= n <= files.len(),
        loaded(files.take(n)) is Err,
    ensures
        loaded(files) == loaded(files.take(n)),
    decreases files.len() - n,
{
    if n < files.len() {
        assert(files.take(n + 1).drop_last() =~= files.take(n));
        lemma_load_fails(files, n + 1);
    } else {
        assert(files.take(n) =~= files);
    }
}

/// The height whose header a file of this name holds.
pub fn height_of_file(name: &str) -> (r: Option<u64>)
    ensures
        r == height_of_name(name@),
{
    proof {
        reveal_strlit(".rlp");
    }
    let n: usize = name.unicode_len();
    if n < 4 {
        return None;
    }
    let suffix: &str = name.substring_char(n - 4, n);
    assert(suffix@ =~= name@.skip(n - 4));
    if !(suffix.get_char(0) == '.' && suffix.get_char(1) == 'r' && suffix.get_char(2) == 'l'
        && suffix.get_char(3) == 'p') {
        return None;
    }
    assert(suffix@ =~= ".rlp"@);
    let stem: &str = name.substring_char(0, n - 4);
    assert(stem@ =~= name@.take(n - 4));
    text::parse_u64(stem)
}

pub open spec fn is_least(commits: Map<u64, FinalizedHeaderView>, height: u64) -> bool {
    &&& commits.contains_key(height)
    &&& forall|h: u64| commits.contains_key(h) ==> height <= h
}

pub open spec fn is_greatest(commits: Map<u64, FinalizedHeaderView>, height: u64) -> bool {
    &&& commits.contains_key(height)
    &&& forall|h: u64| commits.contains_key(h) ==> h <= height
}

/// Whether `r` is the least height, if there is one.
pub open spec fn is_earliest(commits: Map<u64, FinalizedHeaderView>, r: Option<u64>) -> bool {
    match r {
        Some(h) => is_least(commits, h),
        None => commits == Map::<u64, FinalizedHeaderView>::empty(),
    }
}

/// Whether `r` is the greatest height, if there is one.
pub open spec fn is_latest(commits: Map<u64, FinalizedHeaderView>, r: Option<u64>) -> bool {
    match r {
        Some(h) => is_greatest(commits, h),
        None => commits == Map::<u64, FinalizedHeaderView>::empty(),
    }
}

/// The greatest height of a store, or that of the genesis state.
pub open spec fn latest_height(commits: Map<u64, FinalizedHeaderView>) -> u64 {
    if exists|h: u64| is_greatest(commits, h) {
        choose|h: u64| is_greatest(commits, h)
    } else {
        GENESIS_SEQ_NUM
    }
}

pub proof fn lemma_latest_height(commits: Map<u64, FinalizedHeaderView>, r: Option<u64>)
    requires
        is_latest(commits, r),
    ensures
        latest_height(commits) == height_or_genesis(r),
{
    if let Some(h) = r {
        assert(is_greatest(commits, h));
        let g = choose|g: u64| is_greatest(commits, g);
        assert(is_greatest(commits, g));
    } else {
        assert forall|h: u64| !is_greatest(commits, h) by {
            assert(!commits.contains_key(h));
        }
    }
}

/// No header of a store is above its latest height.
pub proof fn lemma_latest_bounds(store: CosmosCommitStore, h: u64)
    requires
        store.wf(),
        store@.contains_key(h),
    ensures
        h <= latest_height(store@),
{
    lemma_has_latest(store);
    let r = choose|r: Option<u64>| is_latest(store@, r);
    lemma_latest_height(store@, r);
}

/// What to do next to give an empty store its genesis header.
pub enum GenesisAction {
    /// The store has headers already.
    Done,
    /// Read the genesis document and ask the application where it stands.
    AskInfo,
    /// Initialise the application with this request.
    InitChain(InitChainRequest),
    /// Commit this header.
    Commit(CosmosFinalizedHeader),
}

impl CosmosCommitStore {
    /// Starts giving the store its genesis header. Without a genesis document
    /// the header has an empty application hash.
    pub fn genesis_start(&self, document_exists: bool) -> (action: GenesisAction)
        requires
            self.wf(),
        ensures
            if self@ != Map::<u64, FinalizedHeaderView>::empty() {
                action is Done
            } else if document_exists {
                action is AskInfo
            } else {
                action matches GenesisAction::Commit(h) && h@ == cosmos_types::bare_header(
                    GENESIS_SEQ_NUM,
                    Seq::empty(),
                )
            },
    {
        if !self.is_empty() {
            GenesisAction::Done
        } else if document_exists {
            GenesisAction::AskInfo
        } else {
            let hash: Vec<u8> = Vec::new();
            assert(hash@ =~= Seq::<u8>::empty());
            GenesisAction::Commit(CosmosFinalizedHeader::bare(GENESIS_SEQ_NUM, hash))
        }
    }

    /// The application told where it stands: one without blocks has to be
    /// initialised, any other gives its hash to the genesis header.
    pub fn genesis_informed(document: &Json, info: InfoResponse) -> (r: Result<
        GenesisAction,
        CosmosTxPoolError,
    >)
        ensures
            if requests::awaits_genesis(info) {
                match r {
                    Ok(action) => action matches GenesisAction::InitChain(request)
                        && genesis::is_init_chain_request(
                        Ok(request),
                        document.deep(),
                        genesis_time_of(document.deep()),
                    ),
                    Err(e) => genesis::is_init_chain_request(
                        Err(e),
                        document.deep(),
                        genesis_time_of(document.deep()),
                    ),
                }
            } else {
                r matches Ok(GenesisAction::Commit(h)) && h@ == cosmos_types::bare_header(
                    GENESIS_SEQ_NUM,
                    info.last_block_app_hash@,
                )
            },
    {
        if requests::needs_init_chain(&info) {
            match genesis::build_init_chain_request(document) {
                Ok(request) => Ok(GenesisAction::InitChain(request)),
                Err(e) => Err(e),
            }
        } else {
            Ok(
                GenesisAction::Commit(
                    CosmosFinalizedHeader::bare(GENESIS_SEQ_NUM, info.last_block_app_hash),
                ),
            )
        }
    }

    /// The application was initialised: its hash goes into the genesis header.
    pub fn genesis_initialised(response: InitChainResponse) -> (action: GenesisAction)
        ensures
            action matches GenesisAction::Commit(h) && h@ == cosmos_types::bare_header(
                GENESIS_SEQ_NUM,
                response.app_hash@,
            ),
    {
        GenesisAction::Commit(CosmosFinalizedHeader::bare(GENESIS_SEQ_NUM, response.app_hash))
    }

    /// Compares the store with the application. One block behind, the store
    /// catches up with a bare header; further behind, it cannot.
    pub fn sync_step(&self, info: &InfoResponse) -> (action: SyncAction)
        requires
            self.wf(),
        ensures
            ({
                let remote = remote_height(*info);
                let local = latest_height(self@);
                if remote <= local {
                    action is InSync
                } else if remote > local + 1 {
                    action matches SyncAction::TooFarAhead(CosmosTxPoolError::Transport(t)) && t@
                        == too_far_ahead(remote, local)
                } else {
                    action matches SyncAction::Append(h) && h@ == cosmos_types::bare_header(
                        remote,
                        info.last_block_app_hash@,
                    )
                }
            }),
    {
        let remote: u64 = if info.last_block_height < 0 {
            0
        } else {
            info.last_block_height as u64
        };
        let local: u64 = self.latest_or_genesis();
        if remote <= local {
            SyncAction::InSync
        } else if remote > local + 1 {
            let mut out: String = String::from_str("ABCI last_block_height=");
            text::push_decimal(&mut out, remote);
            out.append(" is ahead of local cosmos-commits latest=");
            text::push_decimal(&mut out, local);
            out.append(
                " by more than one; reset the app home or remove cosmos-commits and use a fresh socket (common cause: running debug_abci_first_block against the same biyachaind before monad-node)",
            );
            SyncAction::TooFarAhead(CosmosTxPoolError::Transport(out))
        } else {
            SyncAction::Append(
                CosmosFinalizedHeader::bare(
                    remote,
                    cosmos_types::copy_bytes(&info.last_block_app_hash),
                ),
            )
        }
    }
}

/// What the genesis time of a document was read as.
pub open spec fn genesis_time_of(document: json::JsonView) -> Result<(i64, u32), Seq<char>> {
    genesis::rfc3339_utc(
        match json::text_of(document.get("genesis_time"@)) {
            Some(s) => s,
            None => Seq::empty(),
        },
    )
}

/// What to do next to bring a store level with the application.
pub enum SyncAction {
    /// The store is not behind.
    InSync,
    /// The store misses more than one block.
    TooFarAhead(CosmosTxPoolError),
    /// Commit this header and compare again.
    Append(CosmosFinalizedHeader),
}

/// The height that an application reports; negative ones count as zero.
pub open spec fn remote_height(info: InfoResponse) -> u64 {
    if info.last_block_height < 0 {
        0
    } else {
        info.last_block_height as u64
    }
}

/// The message for a store that misses more than one block.
pub open spec fn too_far_ahead(remote: u64, local: u64) -> Seq<char> {
    "ABCI last_block_height="@ + text::decimal_text(remote as nat)
        + " is ahead of local cosmos-commits latest="@ + text::decimal_text(local as nat)
        + " by more than one; reset the app home or remove cosmos-commits and use a fresh socket (common cause: running debug_abci_first_block against the same biyachaind before monad-node)"@
}

/// Once the missing header is committed, the store is level with what the
/// application reported.
pub proof fn appending_catches_up(
    before: Map<u64, FinalizedHeaderView>,
    remote: u64,
    header: FinalizedHeaderView,
)
    requires
        latest_height(before) < remote,
        header.height == remote,
        exists|r: Option<u64>| is_latest(before, r),
    ensures
        latest_height(before.insert(header.height, header)) == remote,
{
    let r = choose|r: Option<u64>| is_latest(before, r);
    lemma_latest_height(before, r);
    let after = before.insert(header.height, header);
    assert(is_greatest(after, remote)) by {
        assert forall|h: u64| after.contains_key(h) implies h <= remote by {
            if h != remote {
                assert(before.contains_key(h));
            }
        }
    }
    lemma_latest_height(after, Some(remote));
}

/// A file is a commit's if and only if its name is a number followed by `.rlp`,
/// and it is the commit of that height.
pub proof fn names_are_numbers(stem: Seq<char>, name: Seq<char>, height: u64)
    ensures
        height_of_name(stem + ".rlp"@) == text::u64_of_text(stem),
        height_of_name(name) is Some ==> name.len() > 4 && name[name.len() - 4] == '.'
            && name[name.len() - 3] == 'r' && name[name.len() - 2] == 'l' && name[name.len() - 1]
            == 'p',
        name_of_height(height) == text::decimal_text(height as nat) + seq!['.', 'r', 'l', 'p'],
{
    reveal_strlit(".rlp");
    let full = stem + ".rlp"@;
    assert(full.skip(full.len() - 4) =~= ".rlp"@);
    assert(full.take(full.len() - 4) =~= stem);
    assert(".rlp"@ =~= seq!['.', 'r', 'l', 'p']);
    if height_of_name(name) is Some {
        let tail = name.skip(name.len() - 4);
        assert(tail[0] == name[name.len() - 4] && tail[1] == name[name.len() - 3]);
        assert(tail[2] == name[name.len() - 2] && tail[3] == name[name.len() - 1]);
    }
}

/// Whether the file at `at` is the last one of a height.
pub open spec fn last_file_of(files: Seq<(Seq<char>, Seq<u8>)>, height: u64, at: int) -> bool {
    &&& 0 <= at < files.len()
    &&& height_of_name(files[at].0) == Some(height)
    &&& forall|j: int|
        at < j < files.len() ==> height_of_name((#[trigger] files[j]).0) != Some(height)
}

/// What is loaded is there: every height with a file, with the header in the
/// last file of that height, and no other.
pub proof fn loaded_headers_are_in_files(files: Seq<(Seq<char>, Seq<u8>)>, height: u64)
    requires
        loaded(files) is Ok,
    ensures
        loaded(files)->Ok_0.contains_key(height) <==> exists|at: int|
            #[trigger] last_file_of(files, height, at),
        forall|at: int| #[trigger]
            last_file_of(files, height, at) ==> cosmos_types::parse_finalized_header(files[at].1)
                == Ok::<FinalizedHeaderView, RlpErrorView>(loaded(files)->Ok_0[height]),
    decreases files.len(),
{
    if files.len() > 0 {
        let init = files.drop_last();
        let last = files.len() - 1;
        loaded_headers_are_in_files(init, height);
        if height_of_name(files.last().0) == Some(height) {
            assert(last_file_of(files, height, last));
            assert forall|at: int| #[trigger] last_file_of(files, height, at) implies at == last by {
                if at < last {
                    assert(height_of_name(files[last].0) == Some(height));
                }
            }
        } else {
            assert forall|at: int| #[trigger] last_file_of(files, height, at) <==> last_file_of(
                init,
                height,
                at,
            ) by {
                if last_file_of(files, height, at) {
                    assert(at != last);
                    assert forall|j: int| at < j < init.len() implies height_of_name(
                        (#[trigger] init[j]).0,
                    ) != Some(height) by {
                        assert(init[j] == files[j]);
                    }
                }
                if last_file_of(init, height, at) {
                    assert forall|j: int| at < j < files.len() implies height_of_name(
                        (#[trigger] files[j]).0,
                    ) != Some(height) by {
                        if j < last {
                            assert(init[j] == files[j]);
                        }
                    }
                }
            }
            if exists|at: int| #[trigger] last_file_of(init, height, at) {
                let at = choose|at: int| #[trigger] last_file_of(init, height, at);
                assert(last_file_of(files, height, at));
            }
        }
    }
}

/// Loading fails if and only if the file of some commit cannot be read, and then
/// with the error of the first such file.
pub proof fn unreadable_files_fail(files: Seq<(Seq<char>, Seq<u8>)>)
    ensures
        loaded(files) is Ok <==> forall|i: int|
            0 <= i < files.len() && height_of_name((#[trigger] files[i]).0) is Some
                ==> cosmos_types::parse_finalized_header(files[i].1) is Ok,
        forall|i: int|
            0 <= i < files.len() && height_of_name((#[trigger] files[i]).0) is Some && (forall|j: int|
                0 <= j < i && height_of_name((#[trigger] files[j]).0) is Some
                    ==> cosmos_types::parse_finalized_header(files[j].1) is Ok) ==> (
            cosmos_types::parse_finalized_header(files[i].1) matches Err(e) ==> loaded(files)
                == Err::<Map<u64, FinalizedHeaderView>, RlpErrorView>(e)),
    decreases files.len(),
{
    if files.len() > 0 {
        let init = files.drop_last();
        let last = files.len() - 1;
        unreadable_files_fail(init);
        assert(files[last] == files.last());
        assert forall|i: int| 0 <= i < last implies init[i] == #[trigger] files[i] by {}
        if loaded(files) is Ok {
            assert forall|i: int|
                0 <= i < files.len() && height_of_name(
                    (#[trigger] files[i]).0,
                ) is Some implies cosmos_types::parse_finalized_header(files[i].1) is Ok by {
                if i < last {
                    assert(init[i] == files[i]);
                }
            }
        } else if loaded(init) is Err {
            let i = choose|i: int|
                0 <= i < init.len() && height_of_name((#[trigger] init[i]).0) is Some
                    && cosmos_types::parse_finalized_header(init[i].1) is Err;
            assert(files[i] == init[i]);
        }
        assert forall|i: int|
            0 <= i < files.len() && height_of_name((#[trigger] files[i]).0) is Some && (forall|
                j: int,
            |
                0 <= j < i && height_of_name((#[trigger] files[j]).0) is Some
                    ==> cosmos_types::parse_finalized_header(
                    files[j].1,
                ) is Ok) && cosmos_types::parse_finalized_header(
                files[i].1,
            ) is Err implies loaded(files) == Err::<Map<u64, FinalizedHeaderView>, RlpErrorView>(
            cosmos_types::parse_finalized_header(files[i].1)->Err_0,
        ) by {
            if i < last {
                assert(init[i] == files[i]);
                assert forall|j: int|
                    0 <= j < i && height_of_name(
                        (#[trigger] init[j]).0,
                    ) is Some implies cosmos_types::parse_finalized_header(init[j].1) is Ok by {
                    assert(files[j] == init[j]);
                }
            } else {
                assert forall|j: int|
                    0 <= j < init.len() && height_of_name(
                        (#[trigger] init[j]).0,
                    ) is Some implies cosmos_types::parse_finalized_header(init[j].1) is Ok by {
                    assert(files[j] == init[j]);
                }
            }
        }
    }
}

/// Whether the header at `at` is the last one of a height.
pub open spec fn last_header_of(headers: Seq<FinalizedHeaderView>, height: u64, at: int) -> bool {
    &&& 0 <= at < headers.len()
    &&& headers[at].height == height
    &&& forall|j: int| at < j < headers.len() ==> (#[trigger] headers[j]).height != height
}

/// Of several commits at one height the last one counts, and every height with
/// a commit is there.
pub proof fn last_commits_count(headers: Seq<FinalizedHeaderView>, height: u64)
    ensures
        committed(headers).contains_key(height) <==> exists|at: int|
            #[trigger] last_header_of(headers, height, at),
        forall|at: int| #[trigger]
            last_header_of(headers, height, at) ==> committed(headers)[height] == headers[at],
    decreases headers.len(),
{
    if headers.len() > 0 {
        let init = headers.drop_last();
        let last = headers.len() - 1;
        last_commits_count(init, height);
        if headers.last().height == height {
            assert(last_header_of(headers, height, last));
            assert forall|at: int| #[trigger] last_header_of(headers, height, at) implies at
                == last by {
                if at < last {
                    assert(headers[last].height == height);
                }
            }
        } else {
            assert forall|at: int| #[trigger] last_header_of(headers, height, at) <==> last_header_of(
                init,
                height,
                at,
            ) by {
                if last_header_of(headers, height, at) {
                    assert forall|j: int| at < j < init.len() implies (#[trigger] init[j]).height
                        != height by {
                        assert(init[j] == headers[j]);
                    }
                }
                if last_header_of(init, height, at) {
                    assert forall|j: int| at < j < headers.len() implies (
                    #[trigger] headers[j]).height != height by {
                        if j < last {
                            assert(init[j] == headers[j]);
                        }
                    }
                }
            }
            if exists|at: int| #[trigger] last_header_of(init, height, at) {
                let at = choose|at: int| #[trigger] last_header_of(init, height, at);
                assert(last_header_of(headers, height, at));
            }
        }
    }
}

/// The latest height is the greatest one with a commit; without commits it is
/// that of the genesis state, zero.
pub proof fn latest_is_the_greatest(commits: Map<u64, FinalizedHeaderView>, top: u64)
    requires
        commits.contains_key(top),
        forall|h: u64| #[trigger] commits.contains_key(h) ==> h <= top,
    ensures
        latest_height(commits) == top,
        is_latest(commits, Some(top)),
        forall|r: Option<u64>| #[trigger] is_latest(commits, r) ==> r == Some(top),
        latest_height(Map::empty()) == 0,
        is_latest(Map::empty(), None),
        height_or_genesis(None) == 0,
        height_or_genesis(Some(top)) == top,
{
    assert(is_greatest(commits, top));
    lemma_latest_height(commits, Some(top));
    lemma_latest_height(Map::<u64, FinalizedHeaderView>::empty(), None);
    assert forall|r: Option<u64>| #[trigger] is_latest(commits, r) implies r == Some(top) by {
        if let Some(h) = r {
            assert(commits.contains_key(h) && commits.contains_key(top));
        }
    }
}

/// The earliest height is the least one with a commit.
pub proof fn earliest_is_the_least(commits: Map<u64, FinalizedHeaderView>, least: u64)
    requires
        commits.contains_key(least),
        forall|h: u64| #[trigger] commits.contains_key(h) ==> least <= h,
    ensures
        is_earliest(commits, Some(least)),
        forall|r: Option<u64>| #[trigger] is_earliest(commits, r) ==> r == Some(least),
        is_earliest(Map::empty(), None),
{
    assert forall|r: Option<u64>| #[trigger] is_earliest(commits, r) implies r == Some(least) by {
        if let Some(h) = r {
            assert(commits.contains_key(h) && commits.contains_key(least));
        }
    }
}

/// The application's height is the one that it reports, and zero where it
/// reports none.
pub proof fn reported_heights_count(info: InfoResponse)
    ensures
        info.last_block_height > 0 ==> remote_height(info) == info.last_block_height,
        info.last_block_height <= 0 ==> remote_height(info) == 0,
{
}

/// The files of a directory are looked at in their order, each with its name
/// and its bytes.
pub proof fn files_stand_in_order(files: Seq<StoredFile>, i: int)
    ensures
        file_views(files).len() == files.len(),
        0 <= i < files.len() ==> file_views(files)[i].0 == files[i].name@ && file_views(files)[i].1
            == files[i].bytes@,
{
}

/// The time of a genesis document is read from its text.
pub proof fn genesis_times_are_read(document: json::JsonView, time: Seq<char>)
    requires
        json::holds(document, "genesis_time"@, json::JsonView::Text(time)),
    ensures
        genesis_time_of(document) == genesis::rfc3339_utc(time),
{
    json::held_members_are_found(document, "genesis_time"@, json::JsonView::Text(time));
}

/// The file of a header is named after its height and holds its encoding.
pub proof fn files_hold_their_header(header: FinalizedHeaderView)
    requires
        header.fits(),
    ensures
        height_of_name(file_of(header).0) == Some(header.height),
        cosmos_types::parse_finalized_header(file_of(header).1) == Ok::<
            FinalizedHeaderView,
            RlpErrorView,
        >(header),
{
    name_leads_to_height(header.height);
    cosmos_types::finalized_header_roundtrip(header);
}

/// An application too far ahead is told with both heights.
pub proof fn applications_ahead_are_told(remote: u64, local: u64)
    ensures
        too_far_ahead(remote, local) == "ABCI last_block_height="@ + text::decimal_text(
            remote as nat,
        ) + " is ahead of local cosmos-commits latest="@ + text::decimal_text(local as nat)
            + " by more than one; reset the app home or remove cosmos-commits and use a fresh socket (common cause: running debug_abci_first_block against the same biyachaind before monad-node)"@,
{
}

} // verus!
