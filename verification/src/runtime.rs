//! Registration of templates at run time, and the client side that hands
//! template updates to the running program.

use vstd::prelude::*;

use crate::protocol::{HotReloadMessage, TemplateId, TemplateUpdate};

verus! {

/// A template registered at runtime
pub struct RegisteredTemplate {
    /// Template identifier
    pub id: TemplateId,
    /// Type name of the component
    pub component_type: String,
    /// Function name where template is defined
    pub function_name: String,
}

impl RegisteredTemplate {
    /// A copy of this registration.
    pub fn duplicate(&self) -> (r: Self)
        ensures
            r == *self,
    {
        RegisteredTemplate {
            id: self.id.duplicate(),
            component_type: self.component_type.clone(),
            function_name: self.function_name.clone(),
        }
    }
}

/// Registry for runtime template registration
pub struct TemplateRegistry {
    /// Registered templates with their metadata
    templates: Vec<RegisteredTemplate>,
}

/// Some template in `s` has the identifier `id`.
pub open spec fn has_id(s: Seq<RegisteredTemplate>, id: TemplateId) -> bool {
    exists|i: int| 0 <= i < s.len() && (#[trigger] s[i]).id.same_as(&id)
}

/// No two templates in `s` share an identifier.
pub open spec fn distinct_ids(s: Seq<RegisteredTemplate>) -> bool {
    forall|i: int, j: int| 0 <= i < j < s.len() ==> !(#[trigger] s[i]).id.same_as(&(#[trigger] s[j]).id)
}

/// The registrations after `t` is registered: added at the end unless its
/// identifier is already there.
pub open spec fn registered(s: Seq<RegisteredTemplate>, t: RegisteredTemplate) -> Seq<RegisteredTemplate> {
    if has_id(s, t.id) {
        s
    } else {
        s.push(t)
    }
}

impl TemplateRegistry {
    /// The registered templates, in the order of registration.
    pub closed spec fn templates(&self) -> Seq<RegisteredTemplate> {
        self.templates@
    }

    /// No identifier is registered twice.
    pub closed spec fn wf(&self) -> bool {
        distinct_ids(self.templates@)
    }

    /// An empty registry.
    pub fn new() -> (r: Self)
        ensures
            r.wf(),
            r.templates() == Seq::<RegisteredTemplate>::empty(),
    {
        TemplateRegistry { templates: Vec::new() }
    }

    /// Register a template, unless one with its identifier is registered.
    pub fn register(&mut self, template: RegisteredTemplate)
        requires
            old(self).wf(),
        ensures
            final(self).wf(),
            final(self).templates() == registered(old(self).templates(), template),
    {
        let mut i: usize = 0;
        while i < self.templates.len()
            invariant
                self.wf(),
                self.templates@ == old(self).templates@,
                i <= self.templates@.len(),
                forall|j: int| 0 <= j < i ==> !(#[trigger] self.templates@[j]).id.same_as(
                    &template.id,
                ),
            decreases self.templates@.len() - i,
        {
            if self.templates[i].id == template.id {
                assert(self.templates@[i as int].id.same_as(&template.id));
                return;
            }
            i = i + 1;
        }
        let ghost before = self.templates@;
        self.templates.push(template);
        proof {
            assert forall|a: int, b: int| 0 <= a < b < self.templates@.len() implies !(
            #[trigger] self.templates@[a]).id.same_as(&(#[trigger] self.templates@[b]).id) by {
                if b == before.len() {
                    assert(!before[a].id.same_as(&template.id));
                } else {
                    assert(!before[a].id.same_as(&before[b].id));
                }
            }
        }
    }

    /// Get all registered templates
    pub fn get_all(&self) -> (r: Vec<RegisteredTemplate>)
        ensures
            r@ == self.templates(),
    {
        let mut r: Vec<RegisteredTemplate> = Vec::new();
        let mut i: usize = 0;
        while i < self.templates.len()
            invariant
                i <= self.templates@.len(),
                r@ == self.templates@.subrange(0, i as int),
            decreases self.templates@.len() - i,
        {
            r.push(self.templates[i].duplicate());
            i = i + 1;
        }
        assert(self.templates@.subrange(0, i as int) =~= self.templates@);
        r
    }

    /// Find a template by ID
    pub fn find(&self, id: &TemplateId) -> (r: Option<RegisteredTemplate>)
        requires
            self.wf(),
        ensures
            match r {
                Some(t) => self.templates().contains(t) && t.id.same_as(id),
                None => !has_id(self.templates(), *id),
            },
    {
        let mut i: usize = 0;
        while i < self.templates.len()
            invariant
                i <= self.templates@.len(),
                forall|j: int| 0 <= j < i ==> !(#[trigger] self.templates@[j]).id.same_as(id),
            decreases self.templates@.len() - i,
        {
            if self.templates[i].id == *id {
                let t = self.templates[i].duplicate();
                assert(self.templates@[i as int] == t);
                return Some(t);
            }
            i = i + 1;
        }
        None
    }

    /// Clear all registered templates
    pub fn clear(&mut self)
        ensures
            final(self).wf(),
            final(self).templates() == Seq::<RegisteredTemplate>::empty(),
    {
        self.templates.clear();
    }
}

/// A registry never holds two templates with one identifier.
pub proof fn lemma_registry_ids_distinct(r: &TemplateRegistry)
    requires
        r.wf(),
    ensures
        distinct_ids(r.templates()),
{
}

/// With identifiers kept distinct, the template found under an identifier
/// is the only one registered with it.
pub proof fn lemma_found_is_unique(r: &TemplateRegistry, t: RegisteredTemplate, u: RegisteredTemplate)
    requires
        r.wf(),
        r.templates().contains(t),
        r.templates().contains(u),
        t.id.same_as(&u.id),
    ensures
        t == u,
{
    let s = r.templates();
    let i = choose|i: int| 0 <= i < s.len() && s[i] == t;
    let j = choose|j: int| 0 <= j < s.len() && s[j] == u;
    if i < j {
        assert(!s[i].id.same_as(&s[j].id));
    } else if j < i {
        assert(!s[j].id.same_as(&s[i].id));
    }
}

/// Registering a template makes its identifier found: a template registered
/// again under a known identifier leaves the first registration in place.
pub proof fn lemma_register_then_found(s: Seq<RegisteredTemplate>, t: RegisteredTemplate)
    ensures
        has_id(registered(s, t), t.id),
        has_id(s, t.id) ==> registered(s, t) == s,
        !has_id(s, t.id) ==> registered(s, t).last() == t,
{
    if !has_id(s, t.id) {
        let s2 = s.push(t);
        assert(s2[s.len() as int] == t);
        assert(t.id.same_as(&t.id));
    }
}

/// Hot reload client for runtime template updates: hands each template
/// update it is told of to its handler.
pub struct HotReloadClient<F: Fn(TemplateId, String)> {
    /// WebSocket URL for hot reload server
    pub server_url: String,
    /// Template update handler
    pub update_handler: F,
}

/// The templates a message updates, with their new HTML.
pub open spec fn updated_templates(msg: HotReloadMessage) -> Seq<(TemplateId, Seq<char>)> {
    match msg {
        HotReloadMessage::TemplateUpdated(u) => seq![(u.id, u.html@)],
        HotReloadMessage::BatchUpdate { updates } => updates@.map_values(
            |u: TemplateUpdate| (u.id, u.html@),
        ),
        _ => Seq::empty(),
    }
}

/// The templates a message updates, with their new HTML, in order.
pub fn template_changes(msg: HotReloadMessage) -> (r: Vec<(TemplateId, String)>)
    ensures
        r@.map_values(|p: (TemplateId, String)| (p.0, p.1@)) == updated_templates(msg),
{
    let mut r: Vec<(TemplateId, String)> = Vec::new();
    match msg {
        HotReloadMessage::TemplateUpdated(u) => {
            let ghost expected = updated_templates(HotReloadMessage::TemplateUpdated(u));
            r.push((u.id, u.html));
            assert(r@.map_values(|p: (TemplateId, String)| (p.0, p.1@)) =~= expected);
        },
        HotReloadMessage::BatchUpdate { updates } => {
            let ghost all = updates@;
            let mut updates = updates;
            let mut i: usize = 0;
            while i < updates.len()
                invariant
                    updates@ == all,
                    i <= all.len(),
                    r@.len() == i,
                    forall|j: int|
                        0 <= j < i ==> (#[trigger] r@[j]).0 == all[j].id && r@[j].1@
                            == all[j].html@,
                decreases all.len() - i,
            {
                let id = updates[i].id.duplicate();
                let html = updates[i].html.clone();
                r.push((id, html));
                i = i + 1;
            }
            assert(r@.map_values(|p: (TemplateId, String)| (p.0, p.1@)) =~= all.map_values(
                |u: TemplateUpdate| (u.id, u.html@),
            ));
        },
        _ => {
            assert(r@.map_values(|p: (TemplateId, String)| (p.0, p.1@)) =~= Seq::<(TemplateId, Seq<char>)>::empty());
        },
    }
    r
}

impl<F: Fn(TemplateId, String)> HotReloadClient<F> {
    /// Create a new hot reload client
    pub fn new(server_url: String, update_handler: F) -> (r: Self)
        ensures
            r.server_url == server_url,
            r.update_handler == update_handler,
    {
        HotReloadClient { server_url, update_handler }
    }

    /// Handle a hot reload message: the handler gets each updated template
    /// with its HTML, in order; other messages are ignored.
    pub fn handle_message(&self, msg: HotReloadMessage)
        requires
            forall|id: TemplateId, html: String| self.update_handler.requires((id, html)),
    {
        let changes = template_changes(msg);
        let mut changes = changes;
        while changes.len() > 0
            invariant
                forall|id: TemplateId, html: String| self.update_handler.requires((id, html)),
            decreases changes@.len(),
        {
            let (id, html) = changes.remove(0);
            (self.update_handler)(id, html);
        }
    }
}

} // verus!
