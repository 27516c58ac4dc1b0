//! Epics: user-defined tags with a handle, a display title and a color.

use vstd::prelude::*;
use crate::ids::fresh_id;

verus! {

/// The mathematical image of an epic.
pub ghost struct EpicV {
    pub id: Seq<char>,
    pub handle: Seq<char>,
    pub title: Seq<char>,
    pub bgcolor: Seq<char>,
}

#[derive(Debug, Clone)]
pub struct Epic {
    pub id: String,
    pub handle: String,
    pub title: String,
    pub bgcolor: String,
}

impl View for Epic {
    type V = EpicV;

    open spec fn view(&self) -> EpicV {
        EpicV { id: self.id@, handle: self.handle@, title: self.title@, bgcolor: self.bgcolor@ }
    }
}

impl Epic {
    /// A fresh epic: random id, handle `default`, title `Default`, white
    /// background.
    pub fn new() -> (e: Epic)
        ensures
            e@.id.len() == 36,
            e@.handle == "default"@,
            e@.title == "Default"@,
            e@.bgcolor == "#ffffff"@,
    {
        Epic {
            id: fresh_id(),
            handle: String::from_str("default"),
            title: String::from_str("Default"),
            bgcolor: String::from_str("#ffffff"),
        }
    }

    pub fn id(&self) -> (r: String)
        ensures
            r@ == self@.id,
    {
        self.id.clone()
    }

    pub fn handle(&self) -> (r: String)
        ensures
            r@ == self@.handle,
    {
        self.handle.clone()
    }

    pub fn set_handle(&mut self, handle: String)
        ensures
            final(self)@ == (EpicV { handle: handle@, ..old(self)@ }),
    {
        self.handle = handle;
    }

    pub fn title(&self) -> (r: String)
        ensures
            r@ == self@.title,
    {
        self.title.clone()
    }

    pub fn set_title(&mut self, title: String)
        ensures
            final(self)@ == (EpicV { title: title@, ..old(self)@ }),
    {
        self.title = title;
    }

    pub fn bgcolor(&self) -> (r: String)
        ensures
            r@ == self@.bgcolor,
    {
        self.bgcolor.clone()
    }

    pub fn set_bgcolor(&mut self, bgcolor: String)
        ensures
            final(self)@ == (EpicV { bgcolor: bgcolor@, ..old(self)@ }),
    {
        self.bgcolor = bgcolor;
    }
}

} // verus!
