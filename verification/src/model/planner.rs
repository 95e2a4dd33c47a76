//! Removal plans: what removing a resource would affect.
use vstd::prelude::*;

use crate::errors::ChapeauError;
use crate::model::analysis::{
    associated_services, dependent_names, find_associated_services, get_dependent_names,
    get_owning_domain_names, get_using_domain_names, owning_domain_names, using_domain_names,
    copy_resource,
};
use crate::model::resource::{label_of, Resource, ResourceType};
use crate::model::root_policy::string_views;
use crate::model::store::{find_by_native_id, Store};
use crate::seqs::lemma_filter_step;
use crate::text::{decimal, decimal_exec, lemma_decimal_starts_with_digit, str_eq};

verus! {

/// A complete removal plan for a resource.
#[derive(Debug)]
pub struct RemovalPlan {
    /// The resource to be removed.
    pub resource: Resource,
    /// Services that will be affected by this removal.
    pub affected_services: Vec<String>,
    /// Packages that will be removed (the target itself).
    pub packages_to_remove: Vec<String>,
    /// Packages that depend on this resource but are NOT being removed.
    pub packages_still_required: Vec<String>,
    /// Domains that own this resource.
    pub owned_by_domains: Vec<String>,
    /// Domains that use this resource.
    pub used_by_domains: Vec<String>,
    /// Other domains that depend on this resource.
    pub other_domain_dependencies: Vec<String>,
    /// Warnings about the removal.
    pub warnings: Vec<String>,
}

/// The lines `  <item>` for each item, in order.
pub open spec fn indented_lines(items: Seq<Seq<char>>) -> Seq<char>
    decreases items.len(),
{
    if items.len() == 0 {
        Seq::<char>::empty()
    } else {
        indented_lines(items.drop_last()) + "  "@ + items.last() + "\n"@
    }
}

/// A block of the plan: a blank line, the title line and the items;
/// nothing for an empty list.
pub open spec fn plan_block(title: Seq<char>, items: Seq<Seq<char>>) -> Seq<char> {
    if items.len() == 0 {
        Seq::<char>::empty()
    } else {
        "\n"@ + title + "\n"@ + indented_lines(items)
    }
}

impl RemovalPlan {
    /// The text of the plan: the heading, the resource's label, then the
    /// non-empty blocks of affected services, packages to remove, packages
    /// still required, other domain dependencies and warnings.
    pub open spec fn text(&self) -> Seq<char> {
        "Removal plan\n============\n\nResource:\n  "@ + label_of(
            self.resource.display_name,
            self.resource.native_id,
        ) + "\n"@ + plan_block("Will affect:"@, string_views(self.affected_services@)) + plan_block(
            "Packages to remove:"@,
            string_views(self.packages_to_remove@),
        ) + plan_block(
            "Packages still required elsewhere:"@,
            string_views(self.packages_still_required@),
        ) + plan_block(
            "Other domain dependencies:"@,
            string_views(self.other_domain_dependencies@),
        ) + plan_block("Warnings:"@, string_views(self.warnings@))
    }

    /// Format the removal plan for display.
    pub fn format(&self) -> (s: String)
        ensures
            s@ == self.text(),
    {
        let mut output = String::from_str("Removal plan\n============\n\nResource:\n  ");
        output.append(self.resource.label());
        output.append("\n");
        append_block(&mut output, "Will affect:", &self.affected_services);
        append_block(&mut output, "Packages to remove:", &self.packages_to_remove);
        append_block(&mut output, "Packages still required elsewhere:", &self.packages_still_required);
        append_block(&mut output, "Other domain dependencies:", &self.other_domain_dependencies);
        append_block(&mut output, "Warnings:", &self.warnings);
        output
    }
}

/// Append a block of the plan.
fn append_block(out: &mut String, title: &str, items: &Vec<String>)
    ensures
        final(out)@ == old(out)@ + plan_block(title@, string_views(items@)),
{
    if items.len() == 0 {
        assert(old(out)@ + plan_block(title@, string_views(items@)) =~= old(out)@);
        return;
    }
    let ghost start = out@;
    let ghost iv = string_views(items@);
    out.append("\n");
    out.append(title);
    out.append("\n");
    let ghost head = out@;
    let mut k: usize = 0;
    while k < items.len()
        invariant
            k <= items.len(),
            iv == string_views(items@),
            out@ == head + indented_lines(iv.take(k as int)),
        decreases items.len() - k,
    {
        out.append("  ");
        out.append(items[k].as_str());
        out.append("\n");
        let ghost t = iv.take(k + 1);
        assert(t.drop_last() =~= iv.take(k as int));
        k = k + 1;
        assert(out@ =~= head + indented_lines(iv.take(k as int)));
    }
    assert(iv.take(items.len() as int) =~= iv);
    assert(out@ =~= start + plan_block(title@, iv));
}

/// The warnings of a plan: associated services of a package, packages
/// still depending on the resource, other domains depending on it.
pub open spec fn plan_warnings(
    resource_type: ResourceType,
    services: nat,
    still_required: nat,
    other_domains: nat,
) -> Seq<Seq<char>> {
    (if resource_type == ResourceType::Package && services > 0 {
        seq![
            "This package has "@ + decimal(services)
                + " associated service(s) that may stop working"@,
        ]
    } else {
        Seq::<Seq<char>>::empty()
    }) + (if still_required > 0 {
        seq![decimal(still_required) + " other package(s) depend on this resource"@]
    } else {
        Seq::<Seq<char>>::empty()
    }) + (if other_domains > 0 {
        seq![decimal(other_domains) + " other domain(s) depend on this resource"@]
    } else {
        Seq::<Seq<char>>::empty()
    })
}

/// The domains, other than the resource's own, that depend on a resource.
/// The knowledge base ties a domain to a resource only by owning or using
/// it, and those domains are the resource's own, so there are none.
pub open spec fn other_domain_names(store: Store, id: Seq<char>) -> Seq<Seq<char>> {
    Seq::<Seq<char>>::empty()
}

/// `p` is the plan for removing `resource` from `store`.
pub open spec fn plan_of(p: RemovalPlan, store: Store, resource: Resource) -> bool {
    let id = resource.id@;
    let still = dependent_names(store, id).filter(|d: Seq<char>| d != resource.native_id@);
    &&& p.resource == resource
    &&& string_views(p.affected_services@) == associated_services(store, id)
    &&& string_views(p.packages_to_remove@) == seq![resource.native_id@]
    &&& string_views(p.packages_still_required@) == still
    &&& string_views(p.owned_by_domains@) == owning_domain_names(store, id)
    &&& string_views(p.used_by_domains@) == using_domain_names(store, id)
    &&& string_views(p.other_domain_dependencies@) == other_domain_names(store, id)
    &&& string_views(p.warnings@) == plan_warnings(
        resource.resource_type,
        associated_services(store, id).len(),
        still.len(),
        other_domain_names(store, id).len(),
    )
}

/// Find the domains, other than the resource's own, that depend on this
/// resource: none is ever one that owns or uses it, which, with what the
/// knowledge base records, leaves none at all.
pub fn find_other_domain_dependencies(store: &Store, resource_id: &str) -> (r: Vec<String>)
    ensures
        string_views(r@) == other_domain_names(*store, resource_id@),
        forall|x: Seq<char>|
            string_views(r@).contains(x) ==> !owning_domain_names(*store, resource_id@).contains(x)
                && !using_domain_names(*store, resource_id@).contains(x),
{
    let r: Vec<String> = Vec::new();
    assert(string_views(r@) =~= Seq::<Seq<char>>::empty());
    r
}

/// The packages still requiring the resource: its dependents other than
/// itself.
fn still_required(dependents: &Vec<String>, native_id: &String) -> (r: Vec<String>)
    ensures
        string_views(r@) == string_views(dependents@).filter(|d: Seq<char>| d != native_id@),
{
    let ghost dv = string_views(dependents@);
    let ghost pred = |d: Seq<char>| d != native_id@;
    let mut r: Vec<String> = Vec::new();
    let mut i: usize = 0;
    while i < dependents.len()
        invariant
            i <= dependents.len(),
            dv == string_views(dependents@),
            pred == (|d: Seq<char>| d != native_id@),
            string_views(r@) == dv.take(i as int).filter(pred),
        decreases dependents.len() - i,
    {
        proof {
            lemma_filter_step(dv, pred, i as int);
        }
        if !str_eq(dependents[i].as_str(), native_id.as_str()) {
            let ghost before = string_views(r@);
            let d = dependents[i].clone();
            r.push(d);
            assert(string_views(r@) =~= before.push(dv[i as int]));
        }
        i = i + 1;
    }
    assert(dv.take(dv.len() as int) =~= dv);
    r
}

/// The warnings of a plan.
fn warnings_for(
    resource_type: ResourceType,
    services: usize,
    still_required: usize,
    other_domains: usize,
) -> (r: Vec<String>)
    ensures
        string_views(r@) == plan_warnings(
            resource_type,
            services as nat,
            still_required as nat,
            other_domains as nat,
        ),
{
    let mut warnings: Vec<String> = Vec::new();
    if resource_type == ResourceType::Package && services > 0 {
        let mut w = String::from_str("This package has ");
        let n = decimal_exec(services);
        w.append(n.as_str());
        w.append(" associated service(s) that may stop working");
        warnings.push(w);
    }
    let ghost first = string_views(warnings@);
    if still_required > 0 {
        let mut w = decimal_exec(still_required);
        w.append(" other package(s) depend on this resource");
        let ghost wv = w@;
        warnings.push(w);
        assert(string_views(warnings@) =~= first.push(wv));
    }
    let ghost second = string_views(warnings@);
    if other_domains > 0 {
        let mut w = decimal_exec(other_domains);
        w.append(" other domain(s) depend on this resource");
        let ghost wv = w@;
        warnings.push(w);
        assert(string_views(warnings@) =~= second.push(wv));
    }
    assert(string_views(warnings@) =~= plan_warnings(
        resource_type,
        services as nat,
        still_required as nat,
        other_domains as nat,
    ));
    warnings
}

/// Build a removal plan for the resource identified by `native_id`; a
/// resource not in the store is an error.
pub fn plan_removal(store: &Store, native_id: &str) -> (r: Result<RemovalPlan, ChapeauError>)
    ensures
        match r {
            Ok(p) => find_by_native_id(store.resources@, native_id@) == Some(p.resource)
                && plan_of(p, *store, p.resource),
            Err(e) => {
                &&& find_by_native_id(store.resources@, native_id@) is None
                &&& e matches ChapeauError::ResourceNotFound(m)
                &&& m@ == "resource '"@ + native_id@ + "' not found"@
            },
        },
{
    let found = store.find_by_native_id(native_id);
    let resource = match found {
        Some(res) => copy_resource(res),
        None => {
            let mut m = String::from_str("resource '");
            m.append(native_id);
            m.append("' not found");
            return Err(ChapeauError::ResourceNotFound(m));
        },
    };
    let affected_services = find_associated_services(store, resource.id.as_str());
    let all_dependents = get_dependent_names(store, resource.id.as_str());
    let mut packages_to_remove: Vec<String> = Vec::new();
    packages_to_remove.push(resource.native_id.clone());
    assert(string_views(packages_to_remove@) =~= seq![resource.native_id@]);
    let packages_still_required = still_required(&all_dependents, &resource.native_id);
    let owned_by_domains = get_owning_domain_names(store, resource.id.as_str());
    let used_by_domains = get_using_domain_names(store, resource.id.as_str());
    let other_domain_dependencies = find_other_domain_dependencies(store, resource.id.as_str());
    let warnings = warnings_for(
        resource.resource_type,
        affected_services.len(),
        packages_still_required.len(),
        other_domain_dependencies.len(),
    );
    Ok(
        RemovalPlan {
            resource,
            affected_services,
            packages_to_remove,
            packages_still_required,
            owned_by_domains,
            used_by_domains,
            other_domain_dependencies,
            warnings,
        },
    )
}

/// A removal plan removes exactly the target: it is the one package to
/// remove, it is never among the packages still requiring it, every package
/// still requiring it is one of its dependents, and no domain it lists as
/// another domain depending on the resource is one of the resource's own
/// (owning or using) domains.
pub proof fn law_plan_removes_only_the_target(p: RemovalPlan, store: Store, resource: Resource)
    requires
        plan_of(p, store, resource),
    ensures
        string_views(p.packages_to_remove@) == seq![resource.native_id@],
        !string_views(p.packages_still_required@).contains(resource.native_id@),
        forall|x: Seq<char>|
            string_views(p.packages_still_required@).contains(x) ==> dependent_names(
                store,
                resource.id@,
            ).contains(x),
        forall|x: Seq<char>|
            string_views(p.other_domain_dependencies@).contains(x) ==> !string_views(
                p.owned_by_domains@,
            ).contains(x) && !string_views(p.used_by_domains@).contains(x),
{
    let id = resource.id@;
    let pred = |d: Seq<char>| d != resource.native_id@;
    let deps = dependent_names(store, id);
    let still = deps.filter(pred);
    if still.contains(resource.native_id@) {
        let i = choose|i: int| 0 <= i < still.len() && still[i] == resource.native_id@;
        deps.lemma_filter_pred(pred, i);
    }
    assert forall|x: Seq<char>| still.contains(x) implies deps.contains(x) by {
        deps.lemma_filter_contains_rev(pred, x);
    }
}


/// Each warning of a plan is there exactly when its condition holds, each
/// independently of the others: a package with associated services is
/// warned about them, a resource that other packages still require is
/// warned about them with their number, and nothing else is warned.
pub proof fn law_plan_warnings(p: RemovalPlan, store: Store, resource: Resource)
    requires
        plan_of(p, store, resource),
    ensures
        (p.packages_still_required@.len() > 0) == string_views(p.warnings@).contains(
            decimal(p.packages_still_required@.len()) + " other package(s) depend on this resource"@,
        ),
        (resource.resource_type == ResourceType::Package && p.affected_services@.len() > 0)
            == string_views(p.warnings@).contains(
            "This package has "@ + decimal(p.affected_services@.len())
                + " associated service(s) that may stop working"@,
        ),
        p.warnings@.len() == (if resource.resource_type == ResourceType::Package
            && p.affected_services@.len() > 0 {
            1int
        } else {
            0int
        }) + (if p.packages_still_required@.len() > 0 {
            1int
        } else {
            0int
        }),
{
    let id = resource.id@;
    let w = string_views(p.warnings@);
    let ns = p.packages_still_required@.len();
    let na = p.affected_services@.len();
    assert(string_views(p.packages_still_required@).len() == ns);
    assert(string_views(p.affected_services@).len() == na);
    reveal_strlit(" other package(s) depend on this resource");
    reveal_strlit("This package has ");
    reveal_strlit(" associated service(s) that may stop working");
    let still_text = decimal(ns) + " other package(s) depend on this resource"@;
    let svc_text = "This package has "@ + decimal(na) + " associated service(s) that may stop working"@;
    let svc = resource.resource_type == ResourceType::Package && na > 0;
    assert(w.len() == p.warnings@.len());
    // The two texts differ: one starts with `T`, the other with a digit.
    lemma_decimal_starts_with_digit(ns);
    assert(still_text[0] != svc_text[0]);
    if svc && ns > 0 {
        assert(w =~= seq![svc_text, still_text]);
        assert(w[0] == svc_text);
        assert(w[1] == still_text);
    } else if svc {
        assert(w =~= seq![svc_text]);
        assert(w[0] == svc_text);
        if w.contains(still_text) {
            assert(w[0] == still_text);
        }
    } else if ns > 0 {
        assert(w =~= seq![still_text]);
        assert(w[0] == still_text);
        if w.contains(svc_text) {
            assert(w[0] == svc_text);
        }
    } else {
        assert(w =~= Seq::<Seq<char>>::empty());
    }
}


/// Every dependent of the resource other than the resource itself is among
/// the packages that still require it.
pub proof fn law_plan_keeps_every_other_dependent(p: RemovalPlan, store: Store, resource: Resource, x: Seq<char>)
    requires
        plan_of(p, store, resource),
        dependent_names(store, resource.id@).contains(x),
        x != resource.native_id@,
    ensures
        string_views(p.packages_still_required@).contains(x),
{
    let deps = dependent_names(store, resource.id@);
    let pred = |d: Seq<char>| d != resource.native_id@;
    let i = choose|i: int| 0 <= i < deps.len() && deps[i] == x;
    deps.lemma_filter_contains(pred, i);
}

} // verus!
