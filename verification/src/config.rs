//! The service configuration read from Consul: which catalog services are
//! exposed, and where their instances are reached.
use vstd::prelude::*;
use crate::net::{IpAddress, SocketAddress};

verus! {

/// The transport protocol a service is forwarded with.
#[derive(Clone, Copy, Debug, PartialEq, Eq)]
pub enum ServiceProtocol {
    TCP,
    UDP,
}

/// One instance of a service to make reachable on the public address.
#[derive(Clone, Debug)]
pub struct ExposedService {
    /// The instance's service id, which names its forwarding handler.
    pub name: String,
    /// The port on the public address.
    pub public_port: u16,
    /// Where connections are forwarded to.
    pub target_addr: SocketAddress,
    pub protocol: ServiceProtocol,
}

impl ExposedService {
    /// A copy of the service.
    pub fn duplicate(&self) -> (copy: ExposedService)
        ensures
            copy == *self,
    {
        ExposedService {
            name: self.name.clone(),
            public_port: self.public_port,
            target_addr: self.target_addr,
            protocol: self.protocol,
        }
    }
}

/// One instance of a catalog service, as the Consul catalog lists it.
#[derive(Clone, Debug)]
pub struct ServiceNode {
    pub service_id: String,
    pub service_port: u16,
    pub service_address: IpAddress,
    pub service_tags: Vec<String>,
}

/// Where the Consul agent is reached.
#[derive(Clone, Debug)]
pub struct ConsulConfig {
    /// The agent's base URL, in the serialized form of an absolute URL.
    pub base_addr: String,
}

// ----- the catalog: which services to expose -----

/// The tag that marks a catalog service as one to expose.
pub open spec fn expose_tag() -> Seq<char> {
    "ipv_proxy.expose"@
}

/// The names of the catalog entries whose tags hold the expose tag, in catalog order.
pub open spec fn exposed_service_names(catalog: Seq<(Seq<char>, Seq<Seq<char>>)>) -> Seq<Seq<char>>
    decreases catalog.len(),
{
    if catalog.len() == 0 {
        seq![]
    } else {
        let before = exposed_service_names(catalog.drop_last());
        if catalog.last().1.contains(expose_tag()) {
            before.push(catalog.last().0)
        } else {
            before
        }
    }
}

/// A name is exposed exactly when some catalog entry of that name has the
/// tag `ipv_proxy.expose` among its tags, at any position.
pub proof fn lemma_exposed_names_are_tagged(catalog: Seq<(Seq<char>, Seq<Seq<char>>)>)
    ensures
        forall|x: Seq<char>|
            #[trigger] exposed_service_names(catalog).contains(x) <==> exists|i: int|
                0 <= i < catalog.len() && (#[trigger] catalog[i]).0 == x && catalog[i].1.contains(
                    "ipv_proxy.expose"@,
                ),
    decreases catalog.len(),
{
    if catalog.len() > 0 {
        let c = catalog.drop_last();
        lemma_exposed_names_are_tagged(c);
        let before = exposed_service_names(c);
        let last = catalog.last();
        let n = catalog.len() - 1;
        assert forall|x: Seq<char>|
            #[trigger] exposed_service_names(catalog).contains(x) <==> exists|i: int|
                0 <= i < catalog.len() && (#[trigger] catalog[i]).0 == x && catalog[i].1.contains(
                    "ipv_proxy.expose"@,
                ) by {
            let after = exposed_service_names(catalog);
            if after.contains(x) {
                let k = choose|k: int| 0 <= k < after.len() && after[k] == x;
                if k < before.len() {
                    if last.1.contains(expose_tag()) {
                        assert(after == before.push(last.0));
                        assert(after[k] == before[k]);
                    }
                    assert(before.contains(x));
                    let i = choose|i: int|
                        0 <= i < c.len() && (#[trigger] c[i]).0 == x && c[i].1.contains(
                            "ipv_proxy.expose"@,
                        );
                    assert(catalog[i] == c[i]);
                } else {
                    assert(last.1.contains(expose_tag()));
                    assert(after == before.push(last.0));
                    assert(catalog[n] == last);
                }
            }
            if exists|i: int|
                0 <= i < catalog.len() && (#[trigger] catalog[i]).0 == x && catalog[i].1.contains(
                    "ipv_proxy.expose"@,
                ) {
                let i = choose|i: int|
                    0 <= i < catalog.len() && (#[trigger] catalog[i]).0 == x && catalog[i].1.contains(
                        "ipv_proxy.expose"@,
                    );
                if i < n {
                    assert(c[i] == catalog[i]);
                    assert(before.contains(x));
                    let k = choose|k: int| 0 <= k < before.len() && before[k] == x;
                    if last.1.contains(expose_tag()) {
                        assert(after == before.push(last.0));
                        assert(after[k] == x);
                    }
                } else {
                    assert(last.1.contains(expose_tag()));
                    assert(after == before.push(last.0));
                    assert(after[before.len() as int] == x);
                }
            }
        }
    }
}

/// Every instance of every service whose instances were loaded is among the
/// loaded instances, and every loaded instance is one of them.
pub open spec fn instances_of(loaded: Seq<Option<Vec<ServiceNode>>>, a: int) -> Seq<ServiceNode> {
    match loaded[a] {
        Some(nodes) => nodes@,
        None => seq![],
    }
}

/// Whether `x` is an instance of one of the services whose instances loaded.
pub open spec fn is_loaded_instance(loaded: Seq<Option<Vec<ServiceNode>>>, x: ServiceNode) -> bool {
    exists|a: int, b: int|
        0 <= a < loaded.len() && 0 <= b < instances_of(loaded, a).len() && #[trigger] instances_of(
            loaded,
            a,
        )[b] == x
}

/// The loaded instances are exactly the instances of the services that loaded,
/// whatever their addresses: each of those is among them, and each of them is
/// one of those.
pub proof fn lemma_loaded_nodes_are_all_instances(loaded: Seq<Option<Vec<ServiceNode>>>)
    ensures
        forall|a: int, b: int|
            0 <= a < loaded.len() && 0 <= b < instances_of(loaded, a).len() ==> loaded_nodes(
                loaded,
            ).contains(#[trigger] instances_of(loaded, a)[b]),
        forall|k: int|
            0 <= k < loaded_nodes(loaded).len() ==> is_loaded_instance(
                loaded,
                #[trigger] loaded_nodes(loaded)[k],
            ),
    decreases loaded.len(),
{
    if loaded.len() > 0 {
        let l = loaded.drop_last();
        let n = loaded.len() - 1;
        lemma_loaded_nodes_are_all_instances(l);
        let before = loaded_nodes(l);
        let extra = instances_of(loaded, n);
        assert(loaded_nodes(loaded) =~= before + extra);
        assert forall|a: int, b: int|
            0 <= a < loaded.len() && 0 <= b < instances_of(loaded, a).len() implies loaded_nodes(
            loaded,
        ).contains(#[trigger] instances_of(loaded, a)[b]) by {
            let x = instances_of(loaded, a)[b];
            if a < n {
                assert(instances_of(l, a) == instances_of(loaded, a));
                assert(before.contains(instances_of(l, a)[b]));
                let k = choose|k: int| 0 <= k < before.len() && before[k] == x;
                assert((before + extra)[k] == x);
            } else {
                assert((before + extra)[before.len() + b] == x);
            }
        }
        assert forall|k: int| 0 <= k < loaded_nodes(loaded).len() implies is_loaded_instance(
            loaded,
            #[trigger] loaded_nodes(loaded)[k],
        ) by {
            let x = loaded_nodes(loaded)[k];
            if k < before.len() {
                assert(x == before[k]);
                assert(is_loaded_instance(l, before[k]));
                let (a, b) = choose|a: int, b: int|
                    0 <= a < l.len() && 0 <= b < instances_of(l, a).len() && #[trigger] instances_of(
                        l,
                        a,
                    )[b] == before[k];
                assert(instances_of(l, a) == instances_of(loaded, a));
                assert(instances_of(loaded, a)[b] == x);
            } else {
                let b = k - before.len();
                assert(instances_of(loaded, n)[b] == x);
            }
        }
    }
}

/// Whether some service of `services` exposes the instance `x`.
pub open spec fn instance_exposed(services: Seq<ExposedService>, x: ServiceNode) -> bool {
    exists|k: int| 0 <= k < services.len() && exposes(x, #[trigger] services[k])
}

/// Whether `service` exposes an instance of a service whose instances loaded.
pub open spec fn exposes_loaded_instance(
    loaded: Seq<Option<Vec<ServiceNode>>>,
    service: ExposedService,
) -> bool {
    exists|x: ServiceNode| #[trigger] is_loaded_instance(loaded, x) && exposes(x, service)
}

/// Services that expose, position by position, the loaded instances expose
/// every instance of every service that loaded, and only those.
proof fn lemma_exposes_all_instances(
    loaded: Seq<Option<Vec<ServiceNode>>>,
    services: Seq<ExposedService>,
)
    requires
        services.len() == loaded_nodes(loaded).len(),
        forall|i: int|
            0 <= i < services.len() ==> exposes(loaded_nodes(loaded)[i], #[trigger] services[i]),
    ensures
        forall|a: int, b: int|
            0 <= a < loaded.len() && 0 <= b < instances_of(loaded, a).len() ==> instance_exposed(
                services,
                #[trigger] instances_of(loaded, a)[b],
            ),
        forall|k: int|
            0 <= k < services.len() ==> exposes_loaded_instance(loaded, #[trigger] services[k]),
{
    lemma_loaded_nodes_are_all_instances(loaded);
    let all = loaded_nodes(loaded);
    assert forall|a: int, b: int|
        0 <= a < loaded.len() && 0 <= b < instances_of(loaded, a).len() implies instance_exposed(
        services,
        #[trigger] instances_of(loaded, a)[b],
    ) by {
        assert(all.contains(instances_of(loaded, a)[b]));
        let k = choose|k: int| 0 <= k < all.len() && all[k] == instances_of(loaded, a)[b];
        assert(exposes(all[k], services[k]));
    }
    assert forall|k: int| 0 <= k < services.len() implies exposes_loaded_instance(
        loaded,
        #[trigger] services[k],
    ) by {
        assert(exposes(all[k], services[k]));
        assert(is_loaded_instance(loaded, all[k]));
    }
}

/// Whether `tags` holds the expose tag.
fn has_expose_tag(tags: &Vec<String>) -> (found: bool)
    ensures
        found == tags.deep_view().contains(expose_tag()),
{
    let expose = "ipv_proxy.expose".to_owned();
    let mut i: usize = 0;
    while i < tags.len()
        invariant
            i <= tags.len(),
            expose@ == expose_tag(),
            forall|j: int| 0 <= j < i ==> tags.deep_view()[j] != expose_tag(),
        decreases tags.len() - i,
    {
        if tags[i] == expose {
            assert(tags.deep_view()[i as int] == expose_tag());
            return true;
        }
        i = i + 1;
    }
    assert forall|j: int| 0 <= j < tags.deep_view().len() implies tags.deep_view()[j]
        != expose_tag() by {}
    false
}

/// The names of the catalog services tagged for exposure, in catalog order.
pub fn services_to_expose(catalog: &Vec<(String, Vec<String>)>) -> (names: Vec<String>)
    ensures
        names.deep_view() == exposed_service_names(catalog.deep_view()),
        forall|x: Seq<char>|
            #[trigger] names.deep_view().contains(x) <==> exists|i: int|
                0 <= i < catalog.len() && (#[trigger] catalog.deep_view()[i]).0 == x
                    && catalog.deep_view()[i].1.contains("ipv_proxy.expose"@),
{
    proof {
        lemma_exposed_names_are_tagged(catalog.deep_view());
    }
    let mut names: Vec<String> = Vec::new();
    let mut i: usize = 0;
    while i < catalog.len()
        invariant
            i <= catalog.len(),
            names.deep_view() == exposed_service_names(catalog.deep_view().take(i as int)),
        decreases catalog.len() - i,
    {
        let ghost prefix = catalog.deep_view().take(i + 1);
        assert(prefix.drop_last() =~= catalog.deep_view().take(i as int));
        assert(prefix.last() == catalog.deep_view()[i as int]);
        let entry = &catalog[i];
        if has_expose_tag(&entry.1) {
            names.push(entry.0.clone());
            assert(names.deep_view() =~= exposed_service_names(prefix));
        }
        i = i + 1;
    }
    assert(catalog.deep_view().take(catalog.len() as int) =~= catalog.deep_view());
    names
}

/// The service catalog that serde_json reads from `raw` into a map from each
/// service's name to its tags, entries in ascending order of name; `None`
/// where `raw` is not such a JSON object.
pub uninterp spec fn parse_service_catalog(raw: Seq<char>) -> Option<Seq<(Seq<char>, Seq<Seq<char>>)>>;

/// Calls `serde_json::from_str` for a `BTreeMap<String, Vec<String>>` and hands
/// the entries out in the map's order. Claims that the result is
/// `parse_service_catalog` of the text; what that is, is left to serde_json.
#[verifier::external_body]
fn parse_catalog(raw: &str) -> (catalog: Option<Vec<(String, Vec<String>)>>)
    ensures
        match catalog {
            Some(c) => parse_service_catalog(raw@) == Some(c.deep_view()),
            None => parse_service_catalog(raw@) is None,
        },
{
    match serde_json::from_str::<std::collections::BTreeMap<String, Vec<String>>>(raw) {
        Ok(map) => Some(map.into_iter().collect()),
        Err(_) => None,
    }
}

/// The names of the services to expose, read from the catalog's JSON text;
/// `None` where the text is not a catalog.
pub fn catalog_services_to_expose(raw: &str) -> (names: Option<Vec<String>>)
    ensures
        match parse_service_catalog(raw@) {
            Some(catalog) => names is Some && names->0.deep_view() == exposed_service_names(
                catalog,
            ) && forall|x: Seq<char>|
                #[trigger] names->0.deep_view().contains(x) <==> exists|i: int|
                    0 <= i < catalog.len() && (#[trigger] catalog[i]).0 == x
                        && catalog[i].1.contains("ipv_proxy.expose"@),
            None => names is None,
        },
{
    match parse_catalog(raw) {
        Some(catalog) => Some(services_to_expose(&catalog)),
        None => None,
    }
}

// ----- the instances: what to forward -----

/// `service` exposes `node`: named by its service id, on its port, forwarded
/// to its address and port over TCP.
pub open spec fn exposes(node: ServiceNode, service: ExposedService) -> bool {
    &&& service.name@ == node.service_id@
    &&& service.public_port == node.service_port
    &&& service.target_addr == SocketAddress { ip: node.service_address, port: node.service_port }
    &&& service.protocol == ServiceProtocol::TCP
}

/// The instances of the services whose instances could be loaded, in order;
/// services that failed to load contribute none.
pub open spec fn loaded_nodes(loaded: Seq<Option<Vec<ServiceNode>>>) -> Seq<ServiceNode>
    decreases loaded.len(),
{
    if loaded.len() == 0 {
        seq![]
    } else {
        let before = loaded_nodes(loaded.drop_last());
        match loaded.last() {
            Some(nodes) => before + nodes@,
            None => before,
        }
    }
}

/// The service that exposes `node`.
pub fn exposed_service(node: &ServiceNode) -> (service: ExposedService)
    ensures
        exposes(*node, service),
{
    ExposedService {
        name: node.service_id.clone(),
        public_port: node.service_port,
        target_addr: SocketAddress { ip: node.service_address, port: node.service_port },
        protocol: ServiceProtocol::TCP,
    }
}

/// The services to expose, one per loaded instance, in order; a service whose
/// instances could not be loaded (`None`) is skipped.
pub fn exposed_services(loaded: &Vec<Option<Vec<ServiceNode>>>) -> (services: Vec<ExposedService>)
    ensures
        services.len() == loaded_nodes(loaded@).len(),
        forall|i: int|
            0 <= i < services.len() ==> exposes(loaded_nodes(loaded@)[i], #[trigger] services@[i]),
        forall|a: int, b: int|
            0 <= a < loaded.len() && 0 <= b < instances_of(loaded@, a).len() ==> instance_exposed(
                services@,
                #[trigger] instances_of(loaded@, a)[b],
            ),
        forall|k: int|
            0 <= k < services.len() ==> exposes_loaded_instance(loaded@, #[trigger] services@[k]),
{
    let mut services: Vec<ExposedService> = Vec::new();
    let mut i: usize = 0;
    while i < loaded.len()
        invariant
            i <= loaded.len(),
            services.len() == loaded_nodes(loaded@.take(i as int)).len(),
            forall|k: int|
                0 <= k < services.len() ==> exposes(
                    loaded_nodes(loaded@.take(i as int))[k],
                    #[trigger] services@[k],
                ),
        decreases loaded.len() - i,
    {
        let ghost before = loaded_nodes(loaded@.take(i as int));
        assert(loaded@.take(i + 1).drop_last() =~= loaded@.take(i as int));
        match &loaded[i] {
            Some(nodes) => {
                let mut j: usize = 0;
                while j < nodes.len()
                    invariant
                        j <= nodes.len(),
                        services.len() == before.len() + j,
                        forall|k: int|
                            0 <= k < services.len() ==> exposes(
                                (before + nodes@)[k],
                                #[trigger] services@[k],
                            ),
                    decreases nodes.len() - j,
                {
                    services.push(exposed_service(&nodes[j]));
                    j = j + 1;
                }
            },
            None => {},
        }
        i = i + 1;
    }
    assert(loaded@.take(loaded.len() as int) =~= loaded@);
    proof {
        lemma_exposes_all_instances(loaded@, services@);
    }
    services
}

// ----- the agent's URLs -----

/// The serialization of the absolute URL that `reference` resolves to against
/// the absolute URL `base`, as the url crate (re-exported by reqwest) parses and
/// joins them; `None` where `base` is no absolute URL or `reference` does not resolve.
pub uninterp spec fn url_join(base: Seq<char>, reference: Seq<char>) -> Option<Seq<char>>;

/// Parses `base` with `reqwest::Url::parse` and resolves `reference` against it
/// with `Url::join`, handing out the result's serialization. Claims that the
/// result is `url_join` of the two texts; the resolution rules are the url
/// crate's and are not stated here.
#[verifier::external_body]
fn join_url(base: &str, reference: &str) -> (joined: Option<String>)
    ensures
        match joined {
            Some(u) => url_join(base@, reference@) == Some(u@),
            None => url_join(base@, reference@) is None,
        },
{
    let base_url = match reqwest::Url::parse(base) {
        Ok(u) => u,
        Err(_) => return None,
    };
    match base_url.join(reference) {
        Ok(u) => Some(u.to_string()),
        Err(_) => None,
    }
}

/// The text of an optional string.
pub open spec fn text_of(s: Option<String>) -> Option<Seq<char>> {
    match s {
        Some(t) => Some(t@),
        None => None,
    }
}

/// `reference` resolved against an optional URL.
pub open spec fn then_join(url: Option<Seq<char>>, reference: Seq<char>) -> Option<Seq<char>> {
    match url {
        Some(u) => url_join(u, reference),
        None => None,
    }
}

impl ConsulConfig {
    /// The root of the agent's HTTP API, `/v1/` on the base URL.
    pub open spec fn spec_api_url(&self) -> Option<Seq<char>> {
        url_join(self.base_addr@, "/v1/"@)
    }

    /// The root of the agent's HTTP API.
    pub fn api_url(&self) -> (url: String)
        requires
            self.spec_api_url() is Some,
        ensures
            Some(url@) == self.spec_api_url(),
    {
        match join_url(self.base_addr.as_str(), "/v1/") {
            Some(url) => url,
            None => {
                assert(false);
                String::new()
            },
        }
    }

    /// The URL that lists the catalog's services and their tags; `None` where
    /// the base URL does not resolve.
    pub fn catalog_services_url(&self) -> (url: Option<String>)
        ensures
            text_of(url) == then_join(self.spec_api_url(), "catalog/services"@),
    {
        match join_url(self.base_addr.as_str(), "/v1/") {
            Some(_) => {
                let api = self.api_url();
                join_url(api.as_str(), "catalog/services")
            },
            None => None,
        }
    }

    /// The URL that lists the instances of `service`; `None` where the base URL
    /// or the service's name does not resolve.
    pub fn catalog_service_url(&self, service: &str) -> (url: Option<String>)
        ensures
            text_of(url) == then_join(
                then_join(self.spec_api_url(), "catalog/service/"@),
                service@,
            ),
    {
        match join_url(self.base_addr.as_str(), "/v1/") {
            Some(_) => {
                let api = self.api_url();
                match join_url(api.as_str(), "catalog/service/") {
                    Some(list) => join_url(list.as_str(), service),
                    None => None,
                }
            },
            None => None,
        }
    }
}

} // verus!
