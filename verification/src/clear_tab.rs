use crate::descriptions::FolderDescriptions;
use crate::order::{lex_le, lemma_lex_le_connected, lemma_lex_le_trans, str_le, str_eq};
use crate::scanner::{decode_event, ScanEvent};
use vstd::prelude::*;
use vstd::relations::sorted_by;

verus! {

/// The order a listing is shown in: by name or by size, ascending or
/// descending.
pub open spec fn pair_le(by_name: bool, asc: bool, a: (String, u64), b: (String, u64)) -> bool {
    if by_name {
        if asc {
            lex_le(a.0@, b.0@)
        } else {
            lex_le(b.0@, a.0@)
        }
    } else {
        if asc {
            a.1 <= b.1
        } else {
            b.1 <= a.1
        }
    }
}

/// The listing order packaged as a relation value.
pub open spec fn pair_order(by_name: bool, asc: bool) -> spec_fn(
    (String, u64),
    (String, u64),
) -> bool {
    |a: (String, u64), b: (String, u64)| pair_le(by_name, asc, a, b)
}

fn pair_le_exec(by_name: bool, asc: bool, a: &(String, u64), b: &(String, u64)) -> (r: bool)
    ensures
        r == pair_le(by_name, asc, *a, *b),
{
    if by_name {
        if asc {
            str_le(a.0.as_str(), b.0.as_str())
        } else {
            str_le(b.0.as_str(), a.0.as_str())
        }
    } else {
        if asc {
            a.1 <= b.1
        } else {
            b.1 <= a.1
        }
    }
}

proof fn lemma_pair_le_connected(by_name: bool, asc: bool, a: (String, u64), b: (String, u64))
    ensures
        pair_le(by_name, asc, a, b) || pair_le(by_name, asc, b, a),
{
    if by_name {
        lemma_lex_le_connected(a.0@, b.0@);
    }
}

proof fn lemma_pair_le_trans(
    by_name: bool,
    asc: bool,
    a: (String, u64),
    b: (String, u64),
    c: (String, u64),
)
    requires
        pair_le(by_name, asc, a, b),
        pair_le(by_name, asc, b, c),
    ensures
        pair_le(by_name, asc, a, c),
{
    if by_name {
        if asc {
            lemma_lex_le_trans(a.0@, b.0@, c.0@);
        } else {
            lemma_lex_le_trans(c.0@, b.0@, a.0@);
        }
    }
}

/// Sorts the listing into the chosen order; the result holds exactly the
/// input entries, with multiplicity.
pub fn sort_pairs(v: &Vec<(String, u64)>, by_name: bool, asc: bool) -> (r: Vec<(String, u64)>)
    ensures
        sorted_by(r@, pair_order(by_name, asc)),
        r@.to_multiset() == v@.to_multiset(),
{
    broadcast use vstd::seq_lib::group_to_multiset_ensures;

    let mut out: Vec<(String, u64)> = Vec::new();
    let mut k: usize = 0;
    proof {
        assert(out@.to_multiset() =~= v@.take(0).to_multiset());
    }
    while k < v.len()
        invariant
            k <= v.len(),
            sorted_by(out@, pair_order(by_name, asc)),
            out@.to_multiset() == v@.take(k as int).to_multiset(),
        decreases v.len() - k,
    {
        let x = (v[k].0.clone(), v[k].1);
        let ghost old_out = out@;
        let mut p: usize = 0;
        while p < out.len() && !pair_le_exec(by_name, asc, &x, &out[p])
            invariant
                p <= out.len(),
                forall|j: int| 0 <= j < p ==> !pair_le(by_name, asc, x, #[trigger] out@[j]),
            decreases out.len() - p,
        {
            p += 1;
        }
        let ghost pos = p as int;
        out.insert(p, x);
        proof {
            let le = pair_order(by_name, asc);
            assert(out@ =~= old_out.insert(pos, x));
            old_out.insert_ensures(pos, x);
            assert forall|a: int, b: int| 0 <= a < b < out@.len() implies #[trigger] le(
                out@[a],
                out@[b],
            ) by {
                if b < pos {
                    assert(le(old_out[a], old_out[b]));
                } else if a < pos && b == pos {
                    assert(!pair_le(by_name, asc, x, old_out[a]));
                    lemma_pair_le_connected(by_name, asc, x, old_out[a]);
                } else if a < pos && b > pos {
                    assert(le(old_out[a], old_out[b - 1]));
                } else if a == pos && b > pos {
                    assert(pos <= b - 1 < old_out.len());
                    assert(pair_le(by_name, asc, x, old_out[pos]));
                    if b - 1 > pos {
                        assert(le(old_out[pos], old_out[b - 1]));
                        lemma_pair_le_trans(by_name, asc, x, old_out[pos], old_out[b - 1]);
                    }
                } else {
                    assert(le(old_out[a - 1], old_out[b - 1]));
                }
            }
            crate::order::lemma_to_multiset_insert(old_out, pos, x);
            assert(x == v@[k as int]);
            assert(v@.take(k as int).push(v@[k as int]) =~= v@.take(k as int + 1));
            v@.take(k as int).to_multiset_ensures();
        }
        k += 1;
    }
    proof {
        assert(v@.take(v@.len() as int) =~= v@);
    }
    out
}

/// The bytes the listing adds up to.
pub open spec fn sum_sizes(s: Seq<(String, u64)>) -> nat
    decreases s.len(),
{
    if s.len() == 0 {
        0
    } else {
        sum_sizes(s.drop_last()) + s.last().1 as nat
    }
}

/// The state behind the cleaning view: the scan in flight, the folders it
/// found, the chosen order, and the edits under way.
pub struct ClearTabState {
    pub is_scanning: bool,
    pub folder_data: Vec<(String, u64)>,
    pub selected_appdata_folder: String,
    pub total_size: u64,
    pub confirm_delete: Option<(String, bool)>,
    pub status: Option<String>,
    pub sort_criterion: Option<String>,
    pub sort_order: Option<String>,
    pub folder_descriptions: Option<FolderDescriptions>,
    pub yaml_error_logged: bool,
    pub ignored_folders: Vec<String>,
    pub edit_description: Option<(String, String)>,
}

/// Whether the chosen criterion orders by name; any other criterion orders
/// by size.
pub open spec fn sorts_by_name(s: ClearTabState) -> bool {
    s.sort_criterion matches Some(c) && c@ == "name"@
}

/// Whether the chosen order is ascending; any other order is descending.
pub open spec fn sorts_ascending(s: ClearTabState) -> bool {
    s.sort_order matches Some(o) && o@ == "asc"@
}

impl ClearTabState {
    pub fn new() -> (r: Self)
        ensures
            !r.is_scanning,
            r.folder_data@ == Seq::<(String, u64)>::empty(),
            r.selected_appdata_folder@ == "Roaming"@,
            r.total_size == 0,
            r.confirm_delete is None,
            r.status matches Some(s) && s@ == "not scanned"@,
            r.sort_criterion is None,
            r.sort_order is None,
            r.folder_descriptions is None,
            !r.yaml_error_logged,
            r.ignored_folders@ == Seq::<String>::empty(),
            r.edit_description is None,
    {
        let r = ClearTabState {
            is_scanning: false,
            folder_data: Vec::new(),
            selected_appdata_folder: String::from_str("Roaming"),
            total_size: 0,
            confirm_delete: None,
            status: Some(String::from_str("not scanned")),
            sort_criterion: None,
            sort_order: None,
            folder_descriptions: None,
            yaml_error_logged: false,
            ignored_folders: Vec::new(),
            edit_description: None,
        };
        proof {
            assert(r.folder_data@ =~= Seq::<(String, u64)>::empty());
            assert(r.ignored_folders@ =~= Seq::<String>::empty());
        }
        r
    }

    /// Switches the tracked category: the listing is cleared and the scan
    /// state reset.
    pub fn set_selected_appdata_folder(&mut self, folder: String)
        ensures
            final(self).selected_appdata_folder == folder,
            final(self).folder_data@ == Seq::<(String, u64)>::empty(),
            !final(self).is_scanning,
            final(self).status matches Some(s) && s@ == "not scanned"@,
            final(self).total_size == old(self).total_size,
            final(self).sort_criterion == old(self).sort_criterion,
            final(self).sort_order == old(self).sort_order,
            final(self).folder_descriptions == old(self).folder_descriptions,
            final(self).ignored_folders == old(self).ignored_folders,
            final(self).edit_description == old(self).edit_description,
            final(self).confirm_delete == old(self).confirm_delete,
    {
        self.selected_appdata_folder = folder;
        self.folder_data = Vec::new();
        self.is_scanning = false;
        self.status = Some(String::from_str("not scanned"));
        proof {
            assert(self.folder_data@ =~= Seq::<(String, u64)>::empty());
        }
    }

    /// Starts a scan unless one is already in flight: the listing is
    /// cleared and the status says so.
    pub fn begin_scan(&mut self) -> (started: bool)
        ensures
            started == !old(self).is_scanning,
            !started ==> *final(self) == *old(self),
            started ==> {
                &&& final(self).is_scanning
                &&& final(self).folder_data@ == Seq::<(String, u64)>::empty()
                &&& final(self).status matches Some(s) && s@ == "scanning"@
                &&& final(self).selected_appdata_folder == old(self).selected_appdata_folder
                &&& final(self).folder_descriptions == old(self).folder_descriptions
                &&& final(self).ignored_folders == old(self).ignored_folders
                &&& final(self).sort_criterion == old(self).sort_criterion
                &&& final(self).sort_order == old(self).sort_order
            },
    {
        if self.is_scanning {
            return false;
        }
        self.is_scanning = true;
        self.folder_data = Vec::new();
        self.status = Some(String::from_str("scanning"));
        proof {
            assert(self.folder_data@ =~= Seq::<(String, u64)>::empty());
        }
        true
    }

    /// Takes one `(name, size)` pair off the scan channel: a measurement
    /// joins the listing, a terminal marker ends the scan.
    pub fn apply_scan_message(&mut self, name: String, size: u64)
        ensures
            name@ == "__SCAN_COMPLETE__"@ ==> {
                &&& !final(self).is_scanning
                &&& final(self).status matches Some(s) && s@ == "scan complete"@
                &&& final(self).folder_data == old(self).folder_data
            },
            name@ == "__SCAN_ERROR__"@ ==> {
                &&& !final(self).is_scanning
                &&& final(self).status matches Some(s) && s@ == "scan failed"@
                &&& final(self).folder_data == old(self).folder_data
            },
            (name@ != "__SCAN_COMPLETE__"@ && name@ != "__SCAN_ERROR__"@) ==> {
                &&& final(self).is_scanning == old(self).is_scanning
                &&& final(self).status == old(self).status
                &&& final(self).folder_data@.len() == old(self).folder_data@.len() + 1
                &&& final(self).folder_data@.last().0@ == name@
                &&& final(self).folder_data@.last().1 == size
                &&& final(self).folder_data@.drop_last() == old(self).folder_data@
            },
            final(self).selected_appdata_folder == old(self).selected_appdata_folder,
            final(self).folder_descriptions == old(self).folder_descriptions,
            final(self).ignored_folders == old(self).ignored_folders,
            final(self).total_size == old(self).total_size,
            final(self).sort_criterion == old(self).sort_criterion,
            final(self).sort_order == old(self).sort_order,
            final(self).confirm_delete == old(self).confirm_delete,
            final(self).edit_description == old(self).edit_description,
    {
        let event = decode_event(name, size);
        match event {
            ScanEvent::Completed => {
                self.is_scanning = false;
                self.status = Some(String::from_str("scan complete"));
            },
            ScanEvent::Failed => {
                self.is_scanning = false;
                self.status = Some(String::from_str("scan failed"));
            },
            ScanEvent::Measured { name: n, size: s } => {
                let ghost before = self.folder_data@;
                self.folder_data.push((n, s));
                proof {
                    assert(self.folder_data@.drop_last() =~= before);
                }
            },
        }
    }

    /// Recomputes the total of the listed sizes, saturating at the
    /// counter's maximum.
    pub fn compute_total_size(&mut self)
        ensures
            final(self).total_size as nat == crate::scanner::clamp64(
                sum_sizes(old(self).folder_data@),
            ),
            final(self).folder_data == old(self).folder_data,
            final(self).is_scanning == old(self).is_scanning,
            final(self).status == old(self).status,
            final(self).selected_appdata_folder == old(self).selected_appdata_folder,
    {
        let mut acc: u64 = 0;
        let mut i: usize = 0;
        proof {
            assert(self.folder_data@.take(0) =~= Seq::<(String, u64)>::empty());
        }
        while i < self.folder_data.len()
            invariant
                i <= self.folder_data@.len(),
                self.folder_data == old(self).folder_data,
                *self == *old(self),
                acc as nat == crate::scanner::clamp64(
                    sum_sizes(self.folder_data@.take(i as int)),
                ),
            decreases self.folder_data@.len() - i,
        {
            let c = self.folder_data[i].1;
            if acc > u64::MAX - c {
                acc = u64::MAX;
            } else {
                acc = acc + c;
            }
            proof {
                assert(self.folder_data@.take(i as int + 1).drop_last() =~= self.folder_data@.take(
                    i as int,
                ));
                assert(self.folder_data@.take(i as int + 1).last() == self.folder_data@[i as int]);
            }
            i += 1;
        }
        proof {
            assert(self.folder_data@.take(self.folder_data@.len() as int) =~= self.folder_data@);
        }
        self.total_size = acc;
    }

    /// Reorders the listing as the chosen criterion and order ask; with no
    /// criterion chosen the listing stays as it came.
    pub fn sort_folder_data(&mut self)
        ensures
            old(self).sort_criterion is None ==> *final(self) == *old(self),
            old(self).sort_criterion is Some ==> {
                &&& final(self).folder_data@.to_multiset() == old(self).folder_data@.to_multiset()
                &&& sorted_by(
                    final(self).folder_data@,
                    pair_order(sorts_by_name(*old(self)), sorts_ascending(*old(self))),
                )
                &&& final(self).is_scanning == old(self).is_scanning
                &&& final(self).status == old(self).status
                &&& final(self).sort_criterion == old(self).sort_criterion
                &&& final(self).sort_order == old(self).sort_order
                &&& final(self).selected_appdata_folder == old(self).selected_appdata_folder
                &&& final(self).folder_descriptions == old(self).folder_descriptions
                &&& final(self).ignored_folders == old(self).ignored_folders
                &&& final(self).total_size == old(self).total_size
                &&& final(self).confirm_delete == old(self).confirm_delete
            },
    {
        proof {
            reveal_strlit("name");
            reveal_strlit("asc");
        }
        let by_name: bool = match &self.sort_criterion {
            Some(c) => str_eq(c.as_str(), "name"),
            None => {
                return ;
            },
        };
        let asc: bool = match &self.sort_order {
            Some(o) => str_eq(o.as_str(), "asc"),
            None => false,
        };
        let sorted = sort_pairs(&self.folder_data, by_name, asc);
        self.folder_data = sorted;
    }

    /// Replaces the loaded folder descriptions; a failed load, handed in as
    /// nothing, raises the once-only error flag so the failure is not
    /// reported again and again.
    pub fn update_folder_descriptions(&mut self, descriptions: Option<FolderDescriptions>)
        ensures
            final(self).folder_descriptions == descriptions,
            descriptions is None ==> final(self).yaml_error_logged,
            descriptions is Some ==> final(self).yaml_error_logged == old(self).yaml_error_logged,
            final(self).folder_data == old(self).folder_data,
            final(self).is_scanning == old(self).is_scanning,
            final(self).status == old(self).status,
            final(self).selected_appdata_folder == old(self).selected_appdata_folder,
    {
        let failed = descriptions.is_none();
        self.folder_descriptions = descriptions;
        if failed {
            self.yaml_error_logged = true;
        }
    }

    /// Marks a folder ignored; marking twice stores it once.
    pub fn ignore_folder(&mut self, folder: String)
        ensures
            crate::order::seq_views(final(self).ignored_folders@).contains(folder@),
            crate::order::seq_views(old(self).ignored_folders@).contains(folder@) ==> *final(self)
                == *old(self),
            !crate::order::seq_views(old(self).ignored_folders@).contains(folder@) ==> final(self).ignored_folders@ == old(self).ignored_folders@.push(folder),
            final(self).folder_data == old(self).folder_data,
            final(self).status == old(self).status,
    {
        if crate::store::contains_string(&self.ignored_folders, folder.as_str()) {
            return ;
        }
        let ghost before = self.ignored_folders@;
        self.ignored_folders.push(folder);
        proof {
            assert(crate::order::seq_views(self.ignored_folders@)[before.len() as int]
                == self.ignored_folders@.last()@);
        }
    }

    /// Settles an armed delete confirmation: the user's answer and, when
    /// confirmed, whether the folder's path resolved and the delete
    /// succeeded, decide the status line. Every status names the armed
    /// folder, so with several folders in play the report is unambiguous;
    /// the confirmation is disarmed in every case.
    pub fn apply_delete_outcome(&mut self, confirmed: bool, outcome: Option<bool>)
        ensures
            final(self).confirm_delete is None,
            !confirmed ==> final(self).status == old(self).status,
            confirmed ==> match old(self).confirm_delete {
                None => final(self).status == old(self).status,
                Some(armed) => match outcome {
                    None => (final(self).status matches Some(s) && s@
                        == "cannot resolve the folder path for "@ + armed.0@),
                    Some(true) => (final(self).status matches Some(s) && s@ == "folder deleted: "@
                        + armed.0@),
                    Some(false) => (final(self).status matches Some(s) && s@
                        == "folder delete failed: "@ + armed.0@),
                },
            },
            final(self).folder_data == old(self).folder_data,
            final(self).is_scanning == old(self).is_scanning,
    {
        let armed = self.confirm_delete.take();
        if !confirmed {
            return ;
        }
        match armed {
            None => {},
            Some((folder, _)) => {
                let mut msg = match outcome {
                    None => String::from_str("cannot resolve the folder path for "),
                    Some(true) => String::from_str("folder deleted: "),
                    Some(false) => String::from_str("folder delete failed: "),
                };
                msg.append(folder.as_str());
                self.status = Some(msg);
            },
        }
    }

    /// Asks for confirmation before a folder is deleted.
    pub fn request_delete(&mut self, folder: String)
        ensures
            final(self).confirm_delete matches Some(p) && p.0 == folder && !p.1,
            final(self).status is None,
            final(self).folder_data == old(self).folder_data,
            final(self).is_scanning == old(self).is_scanning,
    {
        self.confirm_delete = Some((folder, false));
        self.status = None;
    }
}

impl Default for ClearTabState {
    fn default() -> (r: Self)
        ensures
            !r.is_scanning,
            r.folder_data@ == Seq::<(String, u64)>::empty(),
            r.selected_appdata_folder@ == "Roaming"@,
            r.status matches Some(s) && s@ == "not scanned"@,
    {
        ClearTabState::new()
    }
}

/// The application's top-level state: the selected tab, the switches, and
/// the cleaning view's state.
pub struct AppDataCleaner {
    pub current_tab: String,
    pub show_about_window: bool,
    pub is_logging_enabled: bool,
    pub previous_logging_state: bool,
    pub dark_mode: bool,
    pub clear_tab: ClearTabState,
    pub custom_locations: Option<Vec<(String, String)>>,
    pub show_custom_location_window: bool,
}

impl AppDataCleaner {
    pub fn new() -> (r: Self)
        ensures
            r.current_tab@ == "home"@,
            !r.show_about_window,
            !r.is_logging_enabled,
            !r.previous_logging_state,
            r.dark_mode,
            !r.clear_tab.is_scanning,
            r.custom_locations matches Some(v) && v@ == Seq::<(String, String)>::empty(),
            !r.show_custom_location_window,
    {
        let locations: Vec<(String, String)> = Vec::new();
        let r = AppDataCleaner {
            current_tab: String::from_str("home"),
            show_about_window: false,
            is_logging_enabled: false,
            previous_logging_state: false,
            dark_mode: true,
            clear_tab: ClearTabState::new(),
            custom_locations: Some(locations),
            show_custom_location_window: false,
        };
        proof {
            assert(r.custom_locations->0@ =~= Seq::<(String, String)>::empty());
        }
        r
    }
}

impl Default for AppDataCleaner {
    fn default() -> (r: Self)
        ensures
            r.current_tab@ == "home"@,
            r.dark_mode,
            !r.clear_tab.is_scanning,
    {
        AppDataCleaner::new()
    }
}

} // verus!
