//! Decoder for Android binary XML (AXML) documents.
//!
//! Every APK has a manifest file, which is usually in binary format. This
//! library decodes such a manifest into a tree of elements and answers
//! questions about it: the components it declares, the permissions it
//! declares and requests, and which components other apps can reach.

pub mod errors;
pub mod cursor;
pub mod chunks;
pub mod unicode;
pub mod numfmt;
pub mod string_map;
pub mod parser;
pub mod xml_writer;
pub mod traversal;
pub mod apk;

use vstd::prelude::*;
use vstd::string::StringSliceAdditionalSpecFns;
use crate::cursor::{ByteCursor, gives_up, error_of};
use crate::errors::{AxmlError, Fault};
use crate::parser::{Axml, ElementView, XmlNode, dfs_order, android_name, parse_xml_checked, spec_parse_xml, tree_wf};
use crate::string_map::map_get;

verus! {

/// Component state
///
/// A component can be exported or enabled. Each of these feature have default values
/// but these default values can be overriden by the developer. This means they have
/// essentially four states:
///     * default to `true`,
///     * default to `false`,
///     * explicitely set to `true`,
///     * explicitely set to `false`
#[derive(Debug, Clone, Copy, PartialEq, Eq, Structural)]
pub enum ComponentState {
    Unknown,
    DefaultTrue,
    DefaultFalse,
    ExplicitTrue,
    ExplicitFalse,
}

/// Parses the AXML file from a cursor.
///
/// This function will return an `Axml` document whose root is the
/// `manifest` element. The bytes must not hold a chunk on which parsing
/// gives up (see `parser::parse_xml_checked`).
pub fn parse_from_cursor(axml_cursor: ByteCursor) -> (r: Result<Axml, AxmlError>)
    requires
        !gives_up(spec_parse_xml(axml_cursor.bytes(), axml_cursor.at())),
    ensures
        match spec_parse_xml(axml_cursor.bytes(), axml_cursor.at()) {
            Ok(nodes) => r is Ok && r->Ok_0@ == nodes,
            Err(f) => r == Err::<Axml, AxmlError>(error_of(f)),
        },
{
    parser::parse_xml(axml_cursor)
}

/// Parses the AXML file from a string.
///
/// Given a string that represents an AXML document, parses the bytes of
/// the string into XML.
pub fn parse_from_string(axml_str: &str) -> (r: Result<Axml, AxmlError>)
    requires
        !gives_up(spec_parse_xml(axml_str.spec_bytes(), 0)),
    ensures
        match spec_parse_xml(axml_str.spec_bytes(), 0) {
            Ok(nodes) => r is Ok && r->Ok_0@ == nodes,
            Err(f) => r == Err::<Axml, AxmlError>(error_of(f)),
        },
{
    let axml_cursor = ByteCursor::new(axml_str.as_bytes_vec());
    parser::parse_xml(axml_cursor)
}

/// The elements of `order` whose type is `ty`, in order
pub open spec fn select_type(nodes: Seq<ElementView>, order: Seq<XmlNode>, ty: Seq<char>) -> Seq<XmlNode>
    decreases order.len(),
{
    if order.len() == 0 {
        Seq::empty()
    } else {
        let rest = select_type(nodes, order.drop_last(), ty);
        if nodes[order.last() as int].element_type == ty {
            rest.push(order.last())
        } else {
            rest
        }
    }
}

/// The elements of type `ty` in the order in which iterating visits them
pub open spec fn nodes_of_type(nodes: Seq<ElementView>, ty: Seq<char>) -> Seq<XmlNode> {
    select_type(nodes, dfs_order(nodes), ty)
}

/// The name of an element: its `android:name` attribute
pub open spec fn name_of(e: ElementView) -> Option<Seq<char>> {
    map_get(e.attributes, android_name())
}

/// The first element of `order` whose name is `name`
pub open spec fn first_named(nodes: Seq<ElementView>, order: Seq<XmlNode>, name: Seq<char>) -> Option<XmlNode>
    decreases order.len(),
{
    if order.len() == 0 {
        None
    } else if name_of(nodes[order[0] as int]) == Some(name) {
        Some(order[0])
    } else {
        first_named(nodes, order.drop_first(), name)
    }
}

/// The names of the elements of `ns` that have one, in order
pub open spec fn names_of(nodes: Seq<ElementView>, ns: Seq<XmlNode>) -> Seq<Seq<char>>
    decreases ns.len(),
{
    if ns.len() == 0 {
        Seq::empty()
    } else {
        let rest = names_of(nodes, ns.drop_last());
        match name_of(nodes[ns.last() as int]) {
            Some(name) => rest.push(name),
            None => rest,
        }
    }
}

/// Return all elements of the given type
///
/// The elements come in the order in which iterating over the document
/// visits them.
pub fn find_nodes_by_type(axml: &Axml, element_type: &str) -> (r: Vec<XmlNode>)
    ensures
        r@ == nodes_of_type(axml@, element_type@),
        forall|k: int| 0 <= k < r@.len() ==> #[trigger] r@[k] < axml@.len(),
{
    let ty = element_type.to_string();
    let mut it = axml.iter();
    let mut out: Vec<XmlNode> = Vec::new();
    let ghost mut seen: Seq<XmlNode> = Seq::empty();
    loop
        invariant
            it.doc() == axml@,
            seen + it.remaining() == dfs_order(axml@),
            out@ == select_type(axml@, seen, ty@),
            ty@ == element_type@,
            forall|k: int| 0 <= k < out@.len() ==> #[trigger] out@[k] < axml@.len(),
        decreases it.remaining().len(),
    {
        let ghost rem = it.remaining();
        match it.next() {
            None => {
                proof {
                    assert(seen + rem =~= seen);
                }
                return out;
            },
            Some(n) => {
                let ghost old_seen = seen;
                proof {
                    assert(seen.push(n) + it.remaining() =~= seen + rem);
                    seen = seen.push(n);
                    assert(seen.drop_last() =~= old_seen);
                    assert(seen.last() == n);
                }
                let node_type = axml.node(n).element_type().to_string();
                assert(node_type@ == axml@[n as int].element_type);
                if node_type == ty {
                    out.push(n);
                }
            },
        }
    }
}

/// Returns an element by its `android:name` attribute, if some element has that name
///
/// When several elements have the name, the first that iterating over the
/// document visits.
pub fn find_node_by_name(axml: &Axml, node_name: &str) -> (r: Option<XmlNode>)
    ensures
        r == first_named(axml@, dfs_order(axml@), node_name@),
        r matches Some(n) ==> n < axml@.len(),
{
    let name = node_name.to_string();
    let mut it = axml.iter();
    loop
        invariant
            it.doc() == axml@,
            first_named(axml@, dfs_order(axml@), node_name@) == first_named(axml@, it.remaining(), node_name@),
            name@ == node_name@,
        decreases it.remaining().len(),
    {
        let ghost rem = it.remaining();
        match it.next() {
            None => return None,
            Some(n) => {
                let element_name = axml.node(n).get_name();
                match element_name {
                    Some(v) => {
                        if v.to_string() == name {
                            return Some(n);
                        }
                    },
                    None => {},
                }
                proof {
                    assert(rem.drop_first() == it.remaining());
                }
            },
        }
    }
}

/// The names of the elements of the given type that have one
fn names_of_type(parsed_xml: &Axml, element_type: &str) -> (r: Vec<String>)
    ensures
        r.deep_view() == names_of(parsed_xml@, nodes_of_type(parsed_xml@, element_type@)),
{
    let found = find_nodes_by_type(parsed_xml, element_type);
    let mut names: Vec<String> = Vec::new();
    let mut k: usize = 0;
    while k < found.len()
        invariant
            k <= found@.len(),
            found@ == nodes_of_type(parsed_xml@, element_type@),
            forall|j: int| 0 <= j < found@.len() ==> #[trigger] found@[j] < parsed_xml@.len(),
            names.deep_view() == names_of(parsed_xml@, found@.take(k as int)),
        decreases found.len() - k,
    {
        let ghost prefix = found@.take(k as int + 1);
        proof {
            assert(prefix.drop_last() =~= found@.take(k as int));
            assert(prefix.last() == found@[k as int]);
        }
        match parsed_xml.node(found[k]).get_name() {
            Some(name) => {
                let ghost before = names.deep_view();
                names.push(name.to_string());
                proof {
                    assert(names.deep_view() =~= before.push(name@));
                }
            },
            None => {},
        }
        k = k + 1;
    }
    proof {
        assert(found@.take(found@.len() as int) =~= found@);
    }
    names
}

/// The type of activity elements: `activity`
pub open spec fn activity_type() -> Seq<char> {
    seq!['a', 'c', 't', 'i', 'v', 'i', 't', 'y']
}

/// The type of service elements: `service`
pub open spec fn service_type() -> Seq<char> {
    seq!['s', 'e', 'r', 'v', 'i', 'c', 'e']
}

/// The type of content provider elements: `provider`
pub open spec fn provider_type() -> Seq<char> {
    seq!['p', 'r', 'o', 'v', 'i', 'd', 'e', 'r']
}

/// The type of broadcast receiver elements: `receiver`
pub open spec fn receiver_type() -> Seq<char> {
    seq!['r', 'e', 'c', 'e', 'i', 'v', 'e', 'r']
}

/// The type of declared permission elements: `permission`
pub open spec fn permission_type() -> Seq<char> {
    seq!['p', 'e', 'r', 'm', 'i', 's', 's', 'i', 'o', 'n']
}

/// The type of requested permission elements: `uses-permission`
pub open spec fn uses_permission_type() -> Seq<char> {
    seq!['u', 's', 'e', 's', '-', 'p', 'e', 'r', 'm', 'i', 's', 's', 'i', 'o', 'n']
}

/// Get the list of activities names
///
/// This is only valid for APK manifest files and will return an empty vector otherwise
pub fn get_activities_names(parsed_xml: &Axml) -> (r: Vec<String>)
    ensures
        r.deep_view() == names_of(parsed_xml@, nodes_of_type(parsed_xml@, activity_type())),
{
    proof {
        reveal_strlit("activity");
        assert("activity"@ =~= activity_type());
    }
    names_of_type(parsed_xml, "activity")
}

/// Get the list of services names
///
/// This is only valid for APK manifest files and will return an empty vector otherwise
pub fn get_services_names(parsed_xml: &Axml) -> (r: Vec<String>)
    ensures
        r.deep_view() == names_of(parsed_xml@, nodes_of_type(parsed_xml@, service_type())),
{
    proof {
        reveal_strlit("service");
        assert("service"@ =~= service_type());
    }
    names_of_type(parsed_xml, "service")
}

/// Get the list of providers names
///
/// This is only valid for APK manifest files and will return an empty vector otherwise
pub fn get_providers_names(parsed_xml: &Axml) -> (r: Vec<String>)
    ensures
        r.deep_view() == names_of(parsed_xml@, nodes_of_type(parsed_xml@, provider_type())),
{
    proof {
        reveal_strlit("provider");
        assert("provider"@ =~= provider_type());
    }
    names_of_type(parsed_xml, "provider")
}

/// Get the list of receivers names
///
/// This is only valid for APK manifest files and will return an empty vector otherwise
pub fn get_receivers_names(parsed_xml: &Axml) -> (r: Vec<String>)
    ensures
        r.deep_view() == names_of(parsed_xml@, nodes_of_type(parsed_xml@, receiver_type())),
{
    proof {
        reveal_strlit("receiver");
        assert("receiver"@ =~= receiver_type());
    }
    names_of_type(parsed_xml, "receiver")
}

/// Get the list of declared permissions
///
/// This is only valid for APK manifest files and will return an empty vector otherwise.
pub fn get_declared_permissions(parsed_xml: &Axml) -> (r: Vec<String>)
    ensures
        r.deep_view() == names_of(parsed_xml@, nodes_of_type(parsed_xml@, permission_type())),
{
    proof {
        reveal_strlit("permission");
        assert("permission"@ =~= permission_type());
    }
    names_of_type(parsed_xml, "permission")
}

/// Get the list of requested permissions
///
/// This is only valid for APK manifest files and will return an empty vector otherwise. This also
/// does not include permissions requested from within components.
pub fn get_requested_permissions(parsed_xml: &Axml) -> (r: Vec<String>)
    ensures
        r.deep_view() == names_of(parsed_xml@, nodes_of_type(parsed_xml@, uses_permission_type())),
{
    proof {
        reveal_strlit("uses-permission");
        assert("uses-permission"@ =~= uses_permission_type());
    }
    names_of_type(parsed_xml, "uses-permission")
}

/// The attribute that enables a component: `android:enabled`
pub open spec fn android_enabled() -> Seq<char> {
    seq!['a', 'n', 'd', 'r', 'o', 'i', 'd', ':', 'e', 'n', 'a', 'b', 'l', 'e', 'd']
}

/// The attribute that exports a component: `android:exported`
pub open spec fn android_exported() -> Seq<char> {
    seq!['a', 'n', 'd', 'r', 'o', 'i', 'd', ':', 'e', 'x', 'p', 'o', 'r', 't', 'e', 'd']
}

/// The text `false`
pub open spec fn false_text() -> Seq<char> {
    seq!['f', 'a', 'l', 's', 'e']
}

/// The type of intent filter elements: `intent-filter`
pub open spec fn intent_filter_type() -> Seq<char> {
    seq!['i', 'n', 't', 'e', 'n', 't', '-', 'f', 'i', 'l', 't', 'e', 'r']
}

/// The type of the application element: `application`
pub open spec fn application_type() -> Seq<char> {
    seq!['a', 'p', 'p', 'l', 'i', 'c', 'a', 't', 'i', 'o', 'n']
}

/// Some child of element `c` is an intent filter
pub open spec fn has_intent_filter(nodes: Seq<ElementView>, c: int) -> bool {
    exists|k: int| 0 <= k < nodes[c].children.len()
        && #[trigger] nodes[nodes[c].children[k] as int].element_type == intent_filter_type()
}

/// Whether a component is exposed: it is not disabled (`android:enabled`
/// is not `false`), and it is exported, either explicitly (`android:exported`
/// is there and not `false`) or, without that attribute, by default when
/// it has an intent filter.
pub open spec fn spec_is_component_exposed(nodes: Seq<ElementView>, c: int) -> bool {
    let attrs = nodes[c].attributes;
    if map_get(attrs, android_enabled()) == Some(false_text()) {
        false
    } else if map_get(attrs, android_exported()) == Some(false_text()) {
        false
    } else if map_get(attrs, android_exported()) is Some {
        true
    } else {
        has_intent_filter(nodes, c)
    }
}

/// Check if a component is exposed
///
/// A component is considered exposed if it is both enabled and exported. Both of these properties
/// can either be explicitely set (as parameters in the component declaration in the manifest) or
/// left to their default state. The default state depends on the presence or not of intent
/// filters: if there is an intent filter, the assumption is that the compoennt is meants to be
/// available to other apps, and so it is exported by default, otherwise not.
pub fn is_component_exposed(axml: &Axml, component: XmlNode) -> (r: bool)
    requires
        component < axml@.len(),
    ensures
        r == spec_is_component_exposed(axml@, component as int),
{
    let node = axml.node(component);
    let mut _enabled_state = ComponentState::DefaultTrue;
    let mut exported_state = ComponentState::Unknown;
    let false_str = String::from_str("false");
    proof {
        reveal_strlit("false");
        reveal_strlit("android:enabled");
        reveal_strlit("android:exported");
        reveal_strlit("intent-filter");
        assert("android:enabled"@ =~= android_enabled());
        assert("android:exported"@ =~= android_exported());
        assert(false_str@ =~= false_text());
    }

    if let Some(enabled) = node.get_attr("android:enabled") {
        if enabled.to_string() == false_str {
            return false;
        } else {
            _enabled_state = ComponentState::ExplicitTrue;
        }
    }

    if let Some(exported) = node.get_attr("android:exported") {
        if exported.to_string() == false_str {
            return false;
        } else {
            exported_state = ComponentState::ExplicitTrue;
        }
    }

    // If the component has intent filters then the default exported value is `true`, otherwise
    // `false`. This is not the case for content providers though, which usually have explicit
    // values anyway.
    if exported_state == ComponentState::Unknown {
        let intent_filter = String::from_str("intent-filter");
        proof {
            assert(intent_filter@ =~= intent_filter_type());
        }
        let children = node.children();
        let ghost nodes = axml@;
        let mut found = false;
        let mut k: usize = 0;
        while k < children.len() && !found
            invariant
                k <= children@.len(),
                children@ == nodes[component as int].children,
                tree_wf(nodes),
                component < nodes.len(),
                nodes == axml@,
                intent_filter@ == intent_filter_type(),
                found ==> has_intent_filter(nodes, component as int),
                !found ==> forall|j: int| 0 <= j < k ==> #[trigger] nodes[nodes[component as int].children[j] as int].element_type != intent_filter_type(),
            decreases children.len() - k,
        {
            proof {
                assert(component < nodes[component as int].children[k as int] < nodes.len());
            }
            if axml.node(children[k]).element_type().to_string() == intent_filter {
                found = true;
            }
            k = k + 1;
        }
        if found {
            exported_state = ComponentState::DefaultTrue;
        }
        if exported_state == ComponentState::Unknown {
            exported_state = ComponentState::DefaultFalse;
        }
    }

    // At this point we know the component is enabled so we just need to check if it is also
    // exported. Also, if the component is explicitly not exported then we return early so here we
    // do not have to check all the cases
    match exported_state {
        ComponentState::DefaultFalse => false,
        ComponentState::DefaultTrue => true,
        ComponentState::ExplicitTrue => true,
        _ => {
            proof {
                assert(false);
            }
            false
        },
    }
}

/// The exposed components among `ns`, in order
pub open spec fn exposed_of(nodes: Seq<ElementView>, ns: Seq<XmlNode>) -> Seq<XmlNode>
    decreases ns.len(),
{
    if ns.len() == 0 {
        Seq::empty()
    } else {
        let rest = exposed_of(nodes, ns.drop_last());
        if spec_is_component_exposed(nodes, ns.last() as int) {
            rest.push(ns.last())
        } else {
            rest
        }
    }
}

/// The exposed components of each kind
#[derive(Debug)]
pub struct ExposedComponents {
    pub activity: Vec<XmlNode>,
    pub service: Vec<XmlNode>,
    pub provider: Vec<XmlNode>,
    pub receiver: Vec<XmlNode>,
}

impl ExposedComponents {
    /// The exposed components of a kind: `activity`, `service`, `provider` or `receiver`
    pub fn get(&self, kind: &str) -> (r: Option<&Vec<XmlNode>>)
        ensures
            kind@ == activity_type() ==> r == Some(&self.activity),
            kind@ == service_type() ==> r == Some(&self.service),
            kind@ == provider_type() ==> r == Some(&self.provider),
            kind@ == receiver_type() ==> r == Some(&self.receiver),
            kind@ != activity_type() && kind@ != service_type() && kind@ != provider_type()
                && kind@ != receiver_type() ==> r is None,
    {
        let k = kind.to_string();
        let activity = String::from_str("activity");
        let service = String::from_str("service");
        let provider = String::from_str("provider");
        let receiver = String::from_str("receiver");
        proof {
            reveal_strlit("activity");
            reveal_strlit("service");
            reveal_strlit("provider");
            reveal_strlit("receiver");
            assert(activity@ =~= activity_type());
            assert(service@ =~= service_type());
            assert(provider@ =~= provider_type());
            assert(receiver@ =~= receiver_type());
        }
        if k == activity {
            Some(&self.activity)
        } else if k == service {
            Some(&self.service)
        } else if k == provider {
            Some(&self.provider)
        } else if k == receiver {
            Some(&self.receiver)
        } else {
            None
        }
    }
}

/// The exposed components of a document, by kind: none when the document
/// has no application element, or when its last application element (in
/// the order of iteration) is disabled.
pub open spec fn spec_exposed_components(nodes: Seq<ElementView>) -> Option<(Seq<XmlNode>, Seq<XmlNode>, Seq<XmlNode>, Seq<XmlNode>)> {
    let apps = nodes_of_type(nodes, application_type());
    if apps.len() == 0 {
        None
    } else if map_get(nodes[apps.last() as int].attributes, android_enabled()) == Some(false_text()) {
        None
    } else {
        Some((
            exposed_of(nodes, nodes_of_type(nodes, activity_type())),
            exposed_of(nodes, nodes_of_type(nodes, service_type())),
            exposed_of(nodes, nodes_of_type(nodes, provider_type())),
            exposed_of(nodes, nodes_of_type(nodes, receiver_type())),
        ))
    }
}

/// The exposed components among the elements of a type
fn exposed_of_type(axml: &Axml, element_type: &str) -> (r: Vec<XmlNode>)
    ensures
        r@ == exposed_of(axml@, nodes_of_type(axml@, element_type@)),
{
    let found = find_nodes_by_type(axml, element_type);
    let mut out: Vec<XmlNode> = Vec::new();
    let mut k: usize = 0;
    while k < found.len()
        invariant
            k <= found@.len(),
            found@ == nodes_of_type(axml@, element_type@),
            forall|j: int| 0 <= j < found@.len() ==> #[trigger] found@[j] < axml@.len(),
            out@ == exposed_of(axml@, found@.take(k as int)),
        decreases found.len() - k,
    {
        let ghost prefix = found@.take(k as int + 1);
        proof {
            assert(prefix.drop_last() =~= found@.take(k as int));
            assert(prefix.last() == found@[k as int]);
        }
        if is_component_exposed(axml, found[k]) {
            out.push(found[k]);
        }
        k = k + 1;
    }
    proof {
        assert(found@.take(found@.len() as int) =~= found@);
    }
    out
}

/// Parse an app's manifest and get the list of exposed components
///
/// We first check if the app has the `android:enabled` component set, which would influence the
/// state of all the components in the app
pub fn get_exposed_components(parsed_xml: &Axml) -> (r: Option<ExposedComponents>)
    ensures
        match spec_exposed_components(parsed_xml@) {
            None => r is None,
            Some((activity, service, provider, receiver)) => r matches Some(c) && c.activity@ == activity
                && c.service@ == service && c.provider@ == provider && c.receiver@ == receiver,
        },
{
    proof {
        reveal_strlit("application");
        reveal_strlit("android:enabled");
        reveal_strlit("false");
        reveal_strlit("activity");
        reveal_strlit("service");
        reveal_strlit("provider");
        reveal_strlit("receiver");
        assert("application"@ =~= application_type());
        assert("android:enabled"@ =~= android_enabled());
        assert("activity"@ =~= activity_type());
        assert("service"@ =~= service_type());
        assert("provider"@ =~= provider_type());
        assert("receiver"@ =~= receiver_type());
    }
    // Checking if the `<application>` tag has the `enabled` attribute set to `false`
    let mut applications = find_nodes_by_type(parsed_xml, "application");
    let application = applications.pop()?;
    let false_str = String::from_str("false");
    proof {
        assert(false_str@ =~= false_text());
    }
    if let Some(enabled) = parsed_xml.node(application).get_attr("android:enabled") {
        if enabled.to_string() == false_str {
            return None;
        }
    }

    Some(ExposedComponents {
        activity: exposed_of_type(parsed_xml, "activity"),
        service: exposed_of_type(parsed_xml, "service"),
        provider: exposed_of_type(parsed_xml, "provider"),
        receiver: exposed_of_type(parsed_xml, "receiver"),
    })
}

/// Selecting by type keeps exactly the elements of that type, in order and without repeats
proof fn lemma_select_type(nodes: Seq<ElementView>, order: Seq<XmlNode>, ty: Seq<char>)
    requires
        order.no_duplicates(),
    ensures
        select_type(nodes, order, ty).no_duplicates(),
        forall|j: XmlNode| #[trigger] select_type(nodes, order, ty).contains(j)
            <==> order.contains(j) && nodes[j as int].element_type == ty,
    decreases order.len(),
{
    if order.len() > 0 {
        let rest = order.drop_last();
        let last = order.last();
        assert(rest.no_duplicates()) by {
            assert forall|p: int, q: int| 0 <= p < rest.len() && 0 <= q < rest.len() && p != q implies rest[p] != rest[q] by {
                assert(rest[p] == order[p] && rest[q] == order[q]);
            }
        }
        lemma_select_type(nodes, rest, ty);
        assert(!rest.contains(last)) by {
            if rest.contains(last) {
                let p = choose|p: int| 0 <= p < rest.len() && rest[p] == last;
                assert(order[p] == order[order.len() - 1]);
            }
        }
        assert forall|j: XmlNode| order.contains(j) <==> rest.contains(j) || j == last by {
            if order.contains(j) {
                let p = choose|p: int| 0 <= p < order.len() && order[p] == j;
                if p < order.len() - 1 {
                    assert(rest[p] == j);
                }
            }
            if rest.contains(j) {
                let p = choose|p: int| 0 <= p < rest.len() && rest[p] == j;
                assert(order[p] == j);
            }
            if j == last {
                assert(order[order.len() - 1] == j);
            }
        }
        let sel = select_type(nodes, rest, ty);
        if nodes[last as int].element_type == ty {
            let r = sel.push(last);
            assert forall|p: int, q: int| 0 <= p < r.len() && 0 <= q < r.len() && p != q implies r[p] != r[q] by {
                if p < sel.len() && q == sel.len() {
                    assert(sel.contains(r[p]));
                } else if q < sel.len() && p == sel.len() {
                    assert(sel.contains(r[q]));
                }
            }
            assert forall|j: XmlNode| r.contains(j) <==> sel.contains(j) || j == last by {
                if r.contains(j) {
                    let p = choose|p: int| 0 <= p < r.len() && r[p] == j;
                    if p < sel.len() {
                        assert(sel[p] == j);
                    }
                }
                if sel.contains(j) {
                    let p = choose|p: int| 0 <= p < sel.len() && sel[p] == j;
                    assert(r[p] == j);
                }
                if j == last {
                    assert(r[sel.len() as int] == j);
                }
            }
        }
    }
}

/// Finding the elements of a type gives every element of that type in the
/// document, and each only once.
pub proof fn lemma_find_nodes_by_type_exact(nodes: Seq<ElementView>, ty: Seq<char>)
    requires
        tree_wf(nodes),
        nodes.len() <= usize::MAX,
    ensures
        nodes_of_type(nodes, ty).no_duplicates(),
        forall|j: XmlNode| #[trigger] nodes_of_type(nodes, ty).contains(j)
            <==> j < nodes.len() && nodes[j as int].element_type == ty,
{
    traversal::lemma_iteration_visits_each_element_once(nodes);
    lemma_select_type(nodes, dfs_order(nodes), ty);
}

/// Keeping the exposed components keeps exactly those of the list that are exposed
proof fn lemma_exposed_of(nodes: Seq<ElementView>, ns: Seq<XmlNode>)
    ensures
        forall|j: XmlNode| #[trigger] exposed_of(nodes, ns).contains(j)
            <==> ns.contains(j) && spec_is_component_exposed(nodes, j as int),
    decreases ns.len(),
{
    if ns.len() > 0 {
        let rest = ns.drop_last();
        let last = ns.last();
        lemma_exposed_of(nodes, rest);
        assert forall|j: XmlNode| ns.contains(j) <==> rest.contains(j) || j == last by {
            if ns.contains(j) {
                let p = choose|p: int| 0 <= p < ns.len() && ns[p] == j;
                if p < ns.len() - 1 {
                    assert(rest[p] == j);
                }
            }
            if rest.contains(j) {
                let p = choose|p: int| 0 <= p < rest.len() && rest[p] == j;
                assert(ns[p] == j);
            }
            if j == last {
                assert(ns[ns.len() - 1] == j);
            }
        }
        let sel = exposed_of(nodes, rest);
        if spec_is_component_exposed(nodes, last as int) {
            let r = sel.push(last);
            assert forall|j: XmlNode| r.contains(j) <==> sel.contains(j) || j == last by {
                if r.contains(j) {
                    let p = choose|p: int| 0 <= p < r.len() && r[p] == j;
                    if p < sel.len() {
                        assert(sel[p] == j);
                    }
                }
                if sel.contains(j) {
                    let p = choose|p: int| 0 <= p < sel.len() && sel[p] == j;
                    assert(r[p] == j);
                }
                if j == last {
                    assert(r[sel.len() as int] == j);
                }
            }
        }
    }
}

/// The exposed components of a kind are exactly the elements of that kind
/// that are exposed.
pub proof fn lemma_exposed_components_exact(nodes: Seq<ElementView>, ty: Seq<char>)
    requires
        tree_wf(nodes),
        nodes.len() <= usize::MAX,
    ensures
        forall|j: XmlNode| #[trigger] exposed_of(nodes, nodes_of_type(nodes, ty)).contains(j)
            <==> j < nodes.len() && nodes[j as int].element_type == ty && spec_is_component_exposed(nodes, j as int),
{
    lemma_find_nodes_by_type_exact(nodes, ty);
    lemma_exposed_of(nodes, nodes_of_type(nodes, ty));
}

/// The names gathered from a list are the names of its elements that have one
proof fn lemma_names_of(nodes: Seq<ElementView>, ns: Seq<XmlNode>)
    ensures
        forall|s: Seq<char>| #[trigger] names_of(nodes, ns).contains(s)
            <==> exists|k: int| 0 <= k < ns.len() && name_of(nodes[#[trigger] ns[k] as int]) == Some(s),
    decreases ns.len(),
{
    if ns.len() > 0 {
        let rest = ns.drop_last();
        let last = ns.last();
        lemma_names_of(nodes, rest);
        let before = names_of(nodes, rest);
        let full = names_of(nodes, ns);
        assert forall|s: Seq<char>| #[trigger] full.contains(s)
            <==> exists|k: int| 0 <= k < ns.len() && name_of(nodes[#[trigger] ns[k] as int]) == Some(s) by {
            if full.contains(s) {
                let p = choose|p: int| 0 <= p < full.len() && full[p] == s;
                if p < before.len() {
                    assert(before[p] == s);
                    assert(before.contains(s));
                    let k = choose|k: int| 0 <= k < rest.len() && name_of(nodes[#[trigger] rest[k] as int]) == Some(s);
                    assert(ns[k] == rest[k]);
                } else {
                    assert(name_of(nodes[last as int]) == Some(s));
                    assert(ns[ns.len() - 1] == last);
                }
            }
            if exists|k: int| 0 <= k < ns.len() && name_of(nodes[#[trigger] ns[k] as int]) == Some(s) {
                let k = choose|k: int| 0 <= k < ns.len() && name_of(nodes[#[trigger] ns[k] as int]) == Some(s);
                if k < ns.len() - 1 {
                    assert(rest[k] == ns[k]);
                    assert(before.contains(s));
                    let q = choose|q: int| 0 <= q < before.len() && before[q] == s;
                    assert(full[q] == s);
                } else {
                    assert(ns[k] == last);
                    assert(full == before.push(s));
                    assert(full[before.len() as int] == s);
                }
            }
        }
    }
}

/// The names listed for a type (`get_activities_names` and the others) are
/// exactly the names of the elements of that type in the document.
pub proof fn lemma_names_of_type_exact(nodes: Seq<ElementView>, ty: Seq<char>)
    requires
        tree_wf(nodes),
        nodes.len() <= usize::MAX,
    ensures
        forall|s: Seq<char>| #[trigger] names_of(nodes, nodes_of_type(nodes, ty)).contains(s)
            <==> exists|j: int| 0 <= j < nodes.len() && nodes[j].element_type == ty
                && name_of(#[trigger] nodes[j]) == Some(s),
{
    let ns = nodes_of_type(nodes, ty);
    lemma_find_nodes_by_type_exact(nodes, ty);
    lemma_names_of(nodes, ns);
    assert forall|s: Seq<char>| #[trigger] names_of(nodes, ns).contains(s)
        <==> exists|j: int| 0 <= j < nodes.len() && nodes[j].element_type == ty
            && name_of(#[trigger] nodes[j]) == Some(s) by {
        if names_of(nodes, ns).contains(s) {
            let k = choose|k: int| 0 <= k < ns.len() && name_of(nodes[#[trigger] ns[k] as int]) == Some(s);
            assert(ns.contains(ns[k]));
            let j = ns[k] as int;
            assert(0 <= j < nodes.len() && nodes[j].element_type == ty && name_of(nodes[j]) == Some(s));
        }
        if exists|j: int| 0 <= j < nodes.len() && nodes[j].element_type == ty && name_of(#[trigger] nodes[j]) == Some(s) {
            let j = choose|j: int| 0 <= j < nodes.len() && nodes[j].element_type == ty && name_of(#[trigger] nodes[j]) == Some(s);
            assert(ns.contains(j as XmlNode));
            let k = choose|k: int| 0 <= k < ns.len() && ns[k] == j as XmlNode;
            assert(name_of(nodes[ns[k] as int]) == Some(s));
        }
    }
}

/// Which components are exposed: a component whose `android:enabled` or
/// `android:exported` attribute is `false` is never exposed; otherwise one
/// with an `android:exported` attribute is exposed, and one without it is
/// exposed exactly when one of its children is an intent filter.
pub proof fn lemma_component_exposure(nodes: Seq<ElementView>, c: int)
    requires
        0 <= c < nodes.len(),
    ensures
        ({
            let attrs = nodes[c].attributes;
            let enabled = map_get(attrs, android_enabled());
            let exported = map_get(attrs, android_exported());
            &&& enabled == Some(false_text()) ==> !spec_is_component_exposed(nodes, c)
            &&& exported == Some(false_text()) ==> !spec_is_component_exposed(nodes, c)
            &&& enabled != Some(false_text()) && exported is Some && exported != Some(false_text())
                ==> spec_is_component_exposed(nodes, c)
            &&& enabled != Some(false_text()) && exported is None ==> (spec_is_component_exposed(nodes, c)
                <==> exists|k: int| 0 <= k < nodes[c].children.len()
                    && #[trigger] nodes[nodes[c].children[k] as int].element_type == intent_filter_type())
        }),
{
}

/// The exposed components are sorted by kind: each list of
/// `get_exposed_components` holds exactly the exposed elements of its own
/// type (`activity`, `service`, `provider`, `receiver`).
pub proof fn lemma_exposed_components_by_kind(nodes: Seq<ElementView>)
    requires
        tree_wf(nodes),
        nodes.len() <= usize::MAX,
    ensures
        spec_exposed_components(nodes) matches Some((activities, services, providers, receivers)) ==> forall|j: XmlNode| {
            &&& (#[trigger] activities.contains(j) <==> j < nodes.len() && nodes[j as int].element_type == activity_type()
                && spec_is_component_exposed(nodes, j as int))
            &&& (#[trigger] services.contains(j) <==> j < nodes.len() && nodes[j as int].element_type == service_type()
                && spec_is_component_exposed(nodes, j as int))
            &&& (#[trigger] providers.contains(j) <==> j < nodes.len() && nodes[j as int].element_type == provider_type()
                && spec_is_component_exposed(nodes, j as int))
            &&& (#[trigger] receivers.contains(j) <==> j < nodes.len() && nodes[j as int].element_type == receiver_type()
                && spec_is_component_exposed(nodes, j as int))
        },
{
    lemma_exposed_components_exact(nodes, activity_type());
    lemma_exposed_components_exact(nodes, service_type());
    lemma_exposed_components_exact(nodes, provider_type());
    lemma_exposed_components_exact(nodes, receiver_type());
}

/// The element found by name has that name and is in the order; when none
/// is found, no element of the order has that name.
pub proof fn lemma_first_named(nodes: Seq<ElementView>, order: Seq<XmlNode>, name: Seq<char>)
    ensures
        first_named(nodes, order, name) matches Some(n) ==> order.contains(n) && name_of(nodes[n as int]) == Some(name),
        first_named(nodes, order, name) is None ==> forall|k: int| 0 <= k < order.len() ==> name_of(nodes[#[trigger] order[k] as int]) != Some(name),
    decreases order.len(),
{
    if order.len() > 0 {
        lemma_first_named(nodes, order.drop_first(), name);
        if name_of(nodes[order[0] as int]) != Some(name) {
            if let Some(n) = first_named(nodes, order.drop_first(), name) {
                let p = choose|p: int| 0 <= p < order.drop_first().len() && order.drop_first()[p] == n;
                assert(order[p + 1] == n);
            } else {
                assert forall|k: int| 0 <= k < order.len() implies name_of(nodes[#[trigger] order[k] as int]) != Some(name) by {
                    if k > 0 {
                        assert(order[k] == order.drop_first()[k - 1]);
                    }
                }
            }
        } else {
            assert(order[0] == order[0]);
        }
    }
}

} // verus!
