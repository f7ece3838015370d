//! Clumps: groups of entries that share bones, materials and models.

use vstd::prelude::*;

use crate::nucc::nucc_anm::entry::spec_preorder;
use crate::nucc::nucc_anm::entry::Entry;
use crate::nucc::nucc_anm::entry::EntryIter;
use crate::nucc::nucc_anm::entry::EntryView;
use crate::nucc::views;
use crate::nucc::NuccStructInfo;
use crate::nucc::NuccStructReference;
use crate::nucc::StructInfoView;
use crate::nucc::StructReferenceView;

verus! {

/// Who a clump is: a clump of the file is named by a reference; the clump
/// that gathers the entries outside every clump has no name.
#[derive(Debug, PartialEq, Eq)]
pub enum ClumpInfo {
    NoInfo,
    StructRef(NuccStructReference),
}

/// A `ClumpInfo` as plain values.
pub enum ClumpInfoView {
    NoInfo,
    StructRef(StructReferenceView),
}

impl View for ClumpInfo {
    type V = ClumpInfoView;

    open spec fn view(&self) -> ClumpInfoView {
        match self {
            ClumpInfo::NoInfo => ClumpInfoView::NoInfo,
            ClumpInfo::StructRef(reference) => ClumpInfoView::StructRef(reference@),
        }
    }
}

/// A group of entries: the roots of its entry trees, and the references
/// that the file lists for it.
#[derive(Debug, PartialEq, Eq)]
pub struct Clump {
    pub clump_info: ClumpInfo,
    pub root_entries: Vec<Entry>,
    entry_struct_refs: Vec<NuccStructReference>,
    model_struct_refs: Vec<NuccStructReference>,
    other_entry_struct_infos: Vec<NuccStructInfo>,
}

/// A `Clump` as plain values.
pub struct ClumpView {
    pub clump_info: ClumpInfoView,
    pub root_entries: Seq<EntryView>,
    pub entry_struct_refs: Seq<StructReferenceView>,
    pub model_struct_refs: Seq<StructReferenceView>,
    pub other_entry_struct_infos: Seq<StructInfoView>,
}

impl View for Clump {
    type V = ClumpView;

    closed spec fn view(&self) -> ClumpView {
        ClumpView {
            clump_info: self.clump_info@,
            root_entries: views(self.root_entries@),
            entry_struct_refs: views(self.entry_struct_refs@),
            model_struct_refs: views(self.model_struct_refs@),
            other_entry_struct_infos: views(self.other_entry_struct_infos@),
        }
    }
}

impl Clump {
    /// A clump of the file: its name, the roots of its entry trees, and
    /// the references of its bones and materials, and of its models.
    pub fn new_clump(
        struct_ref: NuccStructReference,
        root_entries: Vec<Entry>,
        entry_struct_refs: Vec<NuccStructReference>,
        model_struct_refs: Vec<NuccStructReference>,
    ) -> (r: Clump)
        ensures
            r@ == (ClumpView {
                clump_info: ClumpInfoView::StructRef(struct_ref@),
                root_entries: views(root_entries@),
                entry_struct_refs: views(entry_struct_refs@),
                model_struct_refs: views(model_struct_refs@),
                other_entry_struct_infos: seq![],
            }),
    {
        let r = Clump {
            clump_info: ClumpInfo::StructRef(struct_ref),
            root_entries,
            entry_struct_refs,
            model_struct_refs,
            other_entry_struct_infos: Vec::new(),
        };
        assert(views(r.other_entry_struct_infos@) =~= seq![]);
        r
    }

    /// The clump that gathers the entries outside every clump, with the
    /// identities of those entries.
    pub fn new_other(other_entries: Vec<Entry>, other_entry_struct_infos: Vec<NuccStructInfo>) -> (r:
        Clump)
        ensures
            r@ == (ClumpView {
                clump_info: ClumpInfoView::NoInfo,
                root_entries: views(other_entries@),
                entry_struct_refs: seq![],
                model_struct_refs: seq![],
                other_entry_struct_infos: views(other_entry_struct_infos@),
            }),
    {
        let r = Clump {
            clump_info: ClumpInfo::NoInfo,
            root_entries: other_entries,
            entry_struct_refs: Vec::new(),
            model_struct_refs: Vec::new(),
            other_entry_struct_infos,
        };
        assert(views(r.entry_struct_refs@) =~= seq![]);
        assert(views(r.model_struct_refs@) =~= seq![]);
        r
    }

    /// Who the clump is.
    pub fn info(&self) -> (r: &ClumpInfo)
        ensures
            r@ == self@.clump_info,
    {
        &self.clump_info
    }

    /// The roots of the entry trees.
    pub fn iter(&self) -> (r: &Vec<Entry>)
        ensures
            views(r@) == self@.root_entries,
    {
        &self.root_entries
    }

    /// The roots of the entry trees, to be changed in place.
    pub fn iter_mut(&mut self) -> (r: &mut Vec<Entry>)
        ensures
            views(r@) == old(self)@.root_entries,
            final(self)@ == (ClumpView { root_entries: views(final(r)@), ..old(self)@ }),
    {
        &mut self.root_entries
    }

    /// All entries of the clump in depth-first order.
    pub fn iter_recursive(&self) -> (r: EntryIter<'_>)
        ensures
            r.wf(),
            r.spec_rest() == spec_preorder(self@.root_entries),
    {
        EntryIter::from_entries(&self.root_entries)
    }

    /// The references of the bones and materials, by slot.
    pub fn entry_struct_refs(&self) -> (r: &Vec<NuccStructReference>)
        ensures
            views(r@) == self@.entry_struct_refs,
    {
        &self.entry_struct_refs
    }

    /// The references of the models.
    pub fn model_struct_refs(&self) -> (r: &Vec<NuccStructReference>)
        ensures
            views(r@) == self@.model_struct_refs,
    {
        &self.model_struct_refs
    }

    /// The identities of the entries outside every clump.
    pub fn other_entry_struct_infos(&self) -> (r: &Vec<NuccStructInfo>)
        ensures
            views(r@) == self@.other_entry_struct_infos,
    {
        &self.other_entry_struct_infos
    }
}

} // verus!
