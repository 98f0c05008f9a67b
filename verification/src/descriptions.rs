use crate::order::str_eq;
use vstd::prelude::*;

verus! {

/// The description stored under a folder name, if any; a later entry for
/// the same name wins.
pub open spec fn assoc(m: Seq<(String, String)>, k: Seq<char>) -> Option<Seq<char>>
    decreases m.len(),
{
    if m.len() == 0 {
        None
    } else if m.last().0@ == k {
        Some(m.last().1@)
    } else {
        assoc(m.drop_last(), k)
    }
}

/// Keeps the entries that carry any other name.
pub open spec fn keeps_other(name: Seq<char>) -> spec_fn((String, String)) -> bool {
    |e: (String, String)| e.0@ != name
}

/// Dropping every entry of one name erases exactly that name's description.
pub proof fn lemma_assoc_filter(m: Seq<(String, String)>, name: Seq<char>, k: Seq<char>)
    ensures
        k == name ==> assoc(m.filter(keeps_other(name)), k) is None,
        k != name ==> assoc(m.filter(keeps_other(name)), k) == assoc(m, k),
    decreases m.len(),
{
    broadcast use vstd::seq::Seq::lemma_filter_push;

    let pred = keeps_other(name);
    if m.len() == 0 {
        m.lemma_filter_len(pred);
        assert(m.filter(pred) =~= Seq::<(String, String)>::empty());
    } else {
        let front = m.drop_last();
        assert(front.push(m.last()) =~= m);
        front.lemma_filter_push(m.last(), pred);
        lemma_assoc_filter(front, name, k);
        if pred(m.last()) {
            assert(m.filter(pred) == front.filter(pred).push(m.last()));
            assert(front.filter(pred).push(m.last()).drop_last() =~= front.filter(pred));
            assert(front.filter(pred).push(m.last()).last() == m.last());
        } else {
            assert(m.filter(pred) == front.filter(pred));
        }
    }
}

/// The free-text descriptions of the folders, one map per category.
#[allow(non_snake_case)]
pub struct FolderDescriptions {
    pub Roaming: Vec<(String, String)>,
    pub Local: Vec<(String, String)>,
    pub LocalLow: Vec<(String, String)>,
}

/// The category's map, or nothing for an unknown category token.
pub open spec fn map_of(fd: FolderDescriptions, ft: Seq<char>) -> Option<Seq<(String, String)>> {
    if ft == "Roaming"@ {
        Some(fd.Roaming@)
    } else if ft == "Local"@ {
        Some(fd.Local@)
    } else if ft == "LocalLow"@ {
        Some(fd.LocalLow@)
    } else {
        None
    }
}

/// Copies a description map entry for entry.
fn clone_map(m: &Vec<(String, String)>) -> (r: Vec<(String, String)>)
    ensures
        r@ == m@,
{
    let mut out: Vec<(String, String)> = Vec::new();
    let mut i: usize = 0;
    proof {
        assert(out@ =~= m@.take(0));
    }
    while i < m.len()
        invariant
            i <= m@.len(),
            out@ == m@.take(i as int),
        decreases m@.len() - i,
    {
        out.push((m[i].0.clone(), m[i].1.clone()));
        proof {
            assert(out@ =~= m@.take(i as int + 1));
        }
        i += 1;
    }
    proof {
        assert(m@.take(m@.len() as int) =~= m@);
    }
    out
}

impl Clone for FolderDescriptions {
    fn clone(&self) -> (res: Self)
        ensures
            res.Roaming@ == self.Roaming@,
            res.Local@ == self.Local@,
            res.LocalLow@ == self.LocalLow@,
    {
        FolderDescriptions {
            Roaming: clone_map(&self.Roaming),
            Local: clone_map(&self.Local),
            LocalLow: clone_map(&self.LocalLow),
        }
    }
}

/// A document with no descriptions at all, used when none is on disk.
pub fn create_default_descriptions() -> (r: FolderDescriptions)
    ensures
        r.Roaming@ == Seq::<(String, String)>::empty(),
        r.Local@ == Seq::<(String, String)>::empty(),
        r.LocalLow@ == Seq::<(String, String)>::empty(),
{
    let r = FolderDescriptions { Roaming: Vec::new(), Local: Vec::new(), LocalLow: Vec::new() };
    proof {
        assert(r.Roaming@ =~= Seq::<(String, String)>::empty());
        assert(r.Local@ =~= Seq::<(String, String)>::empty());
        assert(r.LocalLow@ =~= Seq::<(String, String)>::empty());
    }
    r
}

/// Looks a name up in one map, latest entry first.
fn lookup_map(m: &Vec<(String, String)>, folder_name: &str) -> (r: Option<String>)
    ensures
        (r is Some) == (assoc(m@, folder_name@) is Some),
        r is Some ==> r->0@ == assoc(m@, folder_name@)->0,
{
    let mut i: usize = m.len();
    proof {
        assert(m@.take(m@.len() as int) =~= m@);
    }
    while i > 0
        invariant
            i <= m@.len(),
            assoc(m@, folder_name@) == assoc(m@.take(i as int), folder_name@),
        decreases i,
    {
        i = i - 1;
        let ghost before = m@.take(i as int + 1);
        proof {
            assert(before.drop_last() =~= m@.take(i as int));
            assert(before.last() == m@[i as int]);
        }
        if str_eq(m[i].0.as_str(), folder_name) {
            return Some(m[i].1.clone());
        }
    }
    proof {
        assert(m@.take(0) =~= Seq::<(String, String)>::empty());
    }
    None
}

impl FolderDescriptions {
    /// The description stored for the folder under the category, if any.
    pub fn get_description(&self, folder_name: &str, folder_type: &str) -> (r: Option<String>)
        ensures
            match map_of(*self, folder_type@) {
                Some(m) => ((r is Some) == (assoc(m, folder_name@) is Some)) && (r is Some ==> r
                    ->0@ == assoc(m, folder_name@)->0),
                None => r is None,
            },
    {
        if str_eq(folder_type, "Roaming") {
            lookup_map(&self.Roaming, folder_name)
        } else if str_eq(folder_type, "Local") {
            lookup_map(&self.Local, folder_name)
        } else if str_eq(folder_type, "LocalLow") {
            lookup_map(&self.LocalLow, folder_name)
        } else {
            None
        }
    }

    /// Stores the description under the folder's name in the category's map,
    /// replacing what was there; an unknown category is rejected and nothing
    /// changes.
    pub fn update_description(
        &mut self,
        folder_name: &str,
        folder_type: &str,
        description: String,
    ) -> (r: Result<(), String>)
        ensures
            match map_of(*old(self), folder_type@) {
                Some(m) => {
                    &&& r is Ok
                    &&& map_of(*final(self), folder_type@) is Some
                    &&& assoc(map_of(*final(self), folder_type@)->0, folder_name@) == Some(
                        description@,
                    )
                    &&& forall|k: Seq<char>|
                        k != folder_name@ ==> #[trigger] assoc(
                            map_of(*final(self), folder_type@)->0,
                            k,
                        ) == assoc(m, k)
                    &&& forall|ft2: Seq<char>|
                        ft2 != folder_type@ ==> #[trigger] map_of(*final(self), ft2) == map_of(
                            *old(self),
                            ft2,
                        )
                },
                None => (r matches Err(msg) && msg@ == "invalid folder type"@) && *final(self)
                    == *old(self),
            },
    {
        proof {
            reveal_strlit("Roaming");
            reveal_strlit("Local");
            reveal_strlit("LocalLow");
            reveal_strlit("invalid folder type");
        }
        if str_eq(folder_type, "Roaming") {
            let updated = replace_in_map(&self.Roaming, folder_name, description);
            self.Roaming = updated;
            Ok(())
        } else if str_eq(folder_type, "Local") {
            let updated = replace_in_map(&self.Local, folder_name, description);
            self.Local = updated;
            Ok(())
        } else if str_eq(folder_type, "LocalLow") {
            let updated = replace_in_map(&self.LocalLow, folder_name, description);
            self.LocalLow = updated;
            Ok(())
        } else {
            Err(String::from_str("invalid folder type"))
        }
    }
}

/// Rewrites one map so the name carries exactly this description.
fn replace_in_map(m: &Vec<(String, String)>, folder_name: &str, description: String) -> (r: Vec<
    (String, String),
>)
    ensures
        assoc(r@, folder_name@) == Some(description@),
        forall|k: Seq<char>| k != folder_name@ ==> #[trigger] assoc(r@, k) == assoc(m@, k),
{
    broadcast use vstd::seq::Seq::lemma_filter_push;

    let ghost pred = keeps_other(folder_name@);
    let mut kept: Vec<(String, String)> = Vec::new();
    let mut i: usize = 0;
    proof {
        assert(m@.take(0) =~= Seq::<(String, String)>::empty());
        assert(m@.take(0).filter(pred) =~= Seq::<(String, String)>::empty());
    }
    while i < m.len()
        invariant
            i <= m@.len(),
            pred == keeps_other(folder_name@),
            kept@ == m@.take(i as int).filter(pred),
        decreases m@.len() - i,
    {
        if !str_eq(m[i].0.as_str(), folder_name) {
            kept.push((m[i].0.clone(), m[i].1.clone()));
        }
        proof {
            assert(m@.take(i as int + 1) =~= m@.take(i as int).push(m@[i as int]));
            m@.take(i as int).lemma_filter_push(m@[i as int], pred);
        }
        i += 1;
    }
    proof {
        assert(m@.take(m@.len() as int) =~= m@);
    }
    let ghost filtered = kept@;
    kept.push((folder_name.to_owned(), description));
    proof {
        assert(kept@.drop_last() =~= filtered);
        assert(kept@.last().0@ == folder_name@);
        assert forall|k: Seq<char>| k != folder_name@ implies #[trigger] assoc(kept@, k) == assoc(
            m@,
            k,
        ) by {
            assert(assoc(kept@, k) == assoc(filtered, k));
            lemma_assoc_filter(m@, folder_name@, k);
        }
    }
    kept
}

/// The state behind the description editor: what is being edited, and the
/// loaded document.
pub struct YamlEditor {
    pub edit_description: Option<(String, String)>,
    pub folder_descriptions: Option<FolderDescriptions>,
    pub yaml_error_logged: bool,
}

impl YamlEditor {
    pub fn new() -> (r: Self)
        ensures
            r.edit_description is None,
            r.folder_descriptions is None,
            !r.yaml_error_logged,
    {
        YamlEditor { edit_description: None, folder_descriptions: None, yaml_error_logged: false }
    }

    /// Opens the editor on a folder with its current description.
    pub fn open_description_editor(&mut self, folder: &str, current_description: &str)
        ensures
            final(self).edit_description matches Some(e) && e.0@ == folder@ && e.1@
                == current_description@,
            final(self).folder_descriptions == old(self).folder_descriptions,
            final(self).yaml_error_logged == old(self).yaml_error_logged,
    {
        self.edit_description = Some((folder.to_owned(), current_description.to_owned()));
    }

    /// Applies one edited description to the loaded document: a blank
    /// description is ignored, a missing document is replaced by the empty
    /// default first. Returns the status to show, and does not touch the
    /// disk; the caller persists the document.
    pub fn save_description(&mut self, folder: &str, folder_type: &str, description: String) -> (r:
        Option<String>)
        ensures
            final(self).edit_description == old(self).edit_description,
            final(self).yaml_error_logged == old(self).yaml_error_logged,
            is_blank(description@) ==> *final(self) == *old(self) && r is None,
            !is_blank(description@) ==> {
                &&& r is Some
                &&& final(self).folder_descriptions is Some
                &&& match doc_map_or_empty(*old(self), folder_type@) {
                    Some(m) => {
                        &&& r->0@ == "description updated"@
                        &&& map_of(final(self).folder_descriptions->0, folder_type@) is Some
                        &&& assoc(
                            map_of(final(self).folder_descriptions->0, folder_type@)->0,
                            folder@,
                        ) == Some(description@)
                        &&& forall|k: Seq<char>|
                            k != folder@ ==> #[trigger] assoc(
                                map_of(final(self).folder_descriptions->0, folder_type@)->0,
                                k,
                            ) == assoc(m, k)
                        &&& forall|ft2: Seq<char>|
                            ft2 != folder_type@ ==> #[trigger] map_of(
                                final(self).folder_descriptions->0,
                                ft2,
                            ) == doc_map_or_empty(*old(self), ft2)
                    },
                    None => r->0@ == "invalid folder type"@ && (forall|ft2: Seq<char>|
                        #[trigger] map_of(final(self).folder_descriptions->0, ft2)
                            == doc_map_or_empty(*old(self), ft2)),
                }
            },
    {
        proof {
            reveal_strlit("description updated");
            reveal_strlit("invalid folder type");
        }
        if is_blank_str(description.as_str()) {
            return None;
        }
        let mut doc = match self.folder_descriptions.take() {
            Some(d) => d,
            None => create_default_descriptions(),
        };
        proof {
            assert forall|ft2: Seq<char>| #[trigger] map_of(doc, ft2) == doc_map_or_empty(
                *old(self),
                ft2,
            ) by {}
        }
        let outcome = doc.update_description(folder, folder_type, description);
        self.folder_descriptions = Some(doc);
        match outcome {
            Err(e) => Some(e),
            Ok(()) => Some(String::from_str("description updated")),
        }
    }

    /// Closes the editor window: an edit that changed the text is saved as
    /// `save_description` states, an unchanged or blank one is discarded,
    /// and the editing state is cleared either way. Returns the status to
    /// show, if any.
    pub fn finish_edit(&mut self, edited: String, folder_type: &str) -> (r: Option<String>)
        ensures
            final(self).edit_description is None,
            final(self).yaml_error_logged == old(self).yaml_error_logged,
            old(self).edit_description is None ==> *final(self) == *old(self) && r is None,
            match old(self).edit_description {
                None => true,
                Some(e) => {
                    &&& (e.1@ == edited@ || is_blank(edited@)) ==> r is None && final(self).folder_descriptions == old(self).folder_descriptions
                    &&& (e.1@ != edited@ && !is_blank(edited@)) ==> {
                        &&& r is Some
                        &&& final(self).folder_descriptions is Some
                        &&& match doc_map_or_empty(*old(self), folder_type@) {
                            Some(m) => {
                                &&& r->0@ == "description updated"@
                                &&& map_of(final(self).folder_descriptions->0, folder_type@)
                                    is Some
                                &&& assoc(
                                    map_of(final(self).folder_descriptions->0, folder_type@)->0,
                                    e.0@,
                                ) == Some(edited@)
                                &&& forall|k: Seq<char>|
                                    k != e.0@ ==> #[trigger] assoc(
                                        map_of(
                                            final(self).folder_descriptions->0,
                                            folder_type@,
                                        )->0,
                                        k,
                                    ) == assoc(m, k)
                                &&& forall|ft2: Seq<char>|
                                    ft2 != folder_type@ ==> #[trigger] map_of(
                                        final(self).folder_descriptions->0,
                                        ft2,
                                    ) == doc_map_or_empty(*old(self), ft2)
                            },
                            None => r->0@ == "invalid folder type"@ && (forall|ft2: Seq<char>|
                                #[trigger] map_of(final(self).folder_descriptions->0, ft2)
                                    == doc_map_or_empty(*old(self), ft2)),
                        }
                    }
                },
            },
    {
        let open_edit = self.edit_description.take();
        match open_edit {
            None => None,
            Some((folder, current)) => {
                if crate::order::str_eq(edited.as_str(), current.as_str()) {
                    return None;
                }
                self.save_description(folder.as_str(), folder_type, edited)
            },
        }
    }

    /// Takes the document the persistence layer read from disk, or nothing
    /// when the read failed, and hands a copy back to the caller. A failed
    /// load raises the once-only error flag so the failure is not reported
    /// again and again.
    pub fn load_descriptions(&mut self, loaded: Option<FolderDescriptions>) -> (r: Option<
        FolderDescriptions,
    >)
        ensures
            final(self).folder_descriptions == loaded,
            (r is Some) == (loaded is Some),
            loaded matches Some(d) ==> (r matches Some(c) && c.Roaming@ == d.Roaming@ && c.Local@
                == d.Local@ && c.LocalLow@ == d.LocalLow@),
            loaded is None ==> final(self).yaml_error_logged,
            loaded is Some ==> final(self).yaml_error_logged == old(self).yaml_error_logged,
            final(self).edit_description == old(self).edit_description,
    {
        if loaded.is_none() {
            self.yaml_error_logged = true;
        }
        self.folder_descriptions = loaded;
        match &self.folder_descriptions {
            Some(d) => Some(d.clone()),
            None => None,
        }
    }
}

/// The category's map in the loaded document, or in the empty default when
/// none is loaded.
pub open spec fn doc_map_or_empty(e: YamlEditor, ft: Seq<char>) -> Option<Seq<(String, String)>> {
    match e.folder_descriptions {
        Some(d) => map_of(d, ft),
        None => if ft == "Roaming"@ || ft == "Local"@ || ft == "LocalLow"@ {
            Some(Seq::<(String, String)>::empty())
        } else {
            None
        },
    }
}

/// Whether the text trims to nothing: empty, or whitespace only.
pub open spec fn is_blank(s: Seq<char>) -> bool {
    forall|i: int| 0 <= i < s.len() ==> is_space_char(#[trigger] s[i])
}

/// The characters Unicode marks `White_Space`, which is exactly what
/// `str::trim` strips.
pub open spec fn is_space_char(c: char) -> bool {
    ||| '\u{0009}' <= c <= '\u{000D}'
    ||| c == ' '
    ||| c == '\u{0085}'
    ||| c == '\u{00A0}'
    ||| c == '\u{1680}'
    ||| '\u{2000}' <= c <= '\u{200A}'
    ||| c == '\u{2028}'
    ||| c == '\u{2029}'
    ||| c == '\u{202F}'
    ||| c == '\u{205F}'
    ||| c == '\u{3000}'
}

/// Decides whether one character is whitespace.
fn is_space(c: char) -> (r: bool)
    ensures
        r == is_space_char(c),
{
    ('\u{0009}' <= c && c <= '\u{000D}') || c == ' ' || c == '\u{0085}' || c == '\u{00A0}'
        || c == '\u{1680}' || ('\u{2000}' <= c && c <= '\u{200A}') || c == '\u{2028}' || c
        == '\u{2029}' || c == '\u{202F}' || c == '\u{205F}' || c == '\u{3000}'
}

/// Decides whether a text is blank.
pub fn is_blank_str(s: &str) -> (r: bool)
    ensures
        r == is_blank(s@),
{
    let n = s.unicode_len();
    let mut i: usize = 0;
    while i < n
        invariant
            n == s@.len(),
            i <= n,
            forall|j: int| 0 <= j < i ==> is_space_char(#[trigger] s@[j]),
        decreases n - i,
    {
        let c = s.get_char(i);
        if !is_space(c) {
            return false;
        }
        i += 1;
    }
    true
}

} // verus!
