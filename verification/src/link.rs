//! Links over TLS: what an endpoint asks for, what a listener needs to
//! serve, the listeners of a manager, and the steps of the loop that
//! accepts connections.

use crate::error::{ConfigFault, ZError, ZResult};
use crate::key::{name_bytes, views};
use crate::locator::{lookup, option_views, same_text, Locator, LocatorView, Scheme};
use vstd::prelude::*;
use vstd::string::StrSliceExecFns;

verus! {

/// The option that names a file with the certificates of the authorities
/// that a client trusts.
pub const TLS_ROOT_CA_CERTIFICATE_FILE: &'static str = "root_ca_certificate";

/// The option that holds the certificate of the authority that a client
/// trusts.
pub const TLS_ROOT_CA_CERTIFICATE_RAW: &'static str = "root_ca_certificate_raw";

/// The option that names a file with the private key of a server.
pub const TLS_SERVER_PRIVATE_KEY_FILE: &'static str = "server_private_key";

/// The option that holds the private key of a server.
pub const TLS_SERVER_PRIVATE_KEY_RAW: &'static str = "server_private_key_raw";

/// The option that names a file with the certificates of a server.
pub const TLS_SERVER_CERTIFICATE_FILE: &'static str = "server_certificate";

/// The option that holds the certificates of a server.
pub const TLS_SERVER_CERTIFICATE_RAW: &'static str = "server_certificate_raw";

/// The option that says whether a server asks its clients for a
/// certificate.
pub const TLS_CLIENT_AUTH: &'static str = "client_auth";

/// How long the accept loop waits after a failed accept, in microseconds.
pub const TLS_ACCEPT_THROTTLE_TIME: u64 = 100_000;

/// The largest unit that a link over TLS transmits at once.
pub const TLS_DEFAULT_MTU: u16 = 0xffff;

/// Where a piece of material is to be had from.
#[derive(Debug)]
pub enum Material {
    /// The bytes themselves.
    Raw(Vec<u8>),
    /// A file, by its name.
    File(String),
    /// Nowhere.
    Missing,
}

/// What a `Material` holds.
pub enum MaterialView {
    Raw(Seq<u8>),
    File(Seq<char>),
    Missing,
}

impl View for Material {
    type V = MaterialView;

    open spec fn view(&self) -> MaterialView {
        match self {
            Material::Raw(bytes) => MaterialView::Raw(bytes@),
            Material::File(name) => MaterialView::File(name@),
            Material::Missing => MaterialView::Missing,
        }
    }
}

/// The material that the options give: the raw option before the file
/// option.
pub open spec fn material_of(
    options: Seq<(Seq<char>, Seq<char>)>,
    raw: Seq<char>,
    file: Seq<char>,
) -> MaterialView {
    match lookup(options, raw) {
        Some(value) => MaterialView::Raw(name_bytes(value)),
        None => match lookup(options, file) {
            Some(name) => MaterialView::File(name),
            None => MaterialView::Missing,
        },
    }
}

/// What the option `client_auth` says: `true` or `false`, and `false`
/// where it is not given. Nothing where it is neither.
pub open spec fn client_auth_of(options: Seq<(Seq<char>, Seq<char>)>) -> Option<bool> {
    match lookup(options, TLS_CLIENT_AUTH@) {
        None => Some(false),
        Some(value) => if value == "true"@ {
            Some(true)
        } else if value == "false"@ {
            Some(false)
        } else {
            None
        },
    }
}

fn material(endpoint: &Locator, raw: &str, file: &str) -> (m: Material)
    ensures
        m@ == material_of(endpoint@.options, raw@, file@),
{
    match endpoint.option(raw) {
        Some(value) => Material::Raw(value.as_str().as_bytes_vec()),
        None => match endpoint.option(file) {
            Some(name) => Material::File(name.clone()),
            None => Material::Missing,
        },
    }
}

/// Where a client is to take the authorities that it trusts from.
#[derive(Debug)]
pub enum RootSource {
    /// No authority: the endpoint has no option at all.
    Empty,
    /// One certificate, given with the endpoint.
    Raw(Vec<u8>),
    /// The certificates of a file.
    File(String),
    /// The authorities that come with the library.
    WebPki,
}

/// What a `RootSource` holds.
pub enum RootSourceView {
    Empty,
    Raw(Seq<u8>),
    File(Seq<char>),
    WebPki,
}

impl View for RootSource {
    type V = RootSourceView;

    open spec fn view(&self) -> RootSourceView {
        match self {
            RootSource::Empty => RootSourceView::Empty,
            RootSource::Raw(bytes) => RootSourceView::Raw(bytes@),
            RootSource::File(name) => RootSourceView::File(name@),
            RootSource::WebPki => RootSourceView::WebPki,
        }
    }
}

/// The source of the authorities of a client for an endpoint.
pub open spec fn root_source_of(options: Seq<(Seq<char>, Seq<char>)>) -> RootSourceView {
    if options.len() == 0 {
        RootSourceView::Empty
    } else {
        match material_of(options, TLS_ROOT_CA_CERTIFICATE_RAW@, TLS_ROOT_CA_CERTIFICATE_FILE@) {
            MaterialView::Raw(bytes) => RootSourceView::Raw(bytes),
            MaterialView::File(name) => RootSourceView::File(name),
            MaterialView::Missing => RootSourceView::WebPki,
        }
    }
}

/// Where a client that dials `endpoint` takes the authorities that it
/// trusts from: none where the endpoint has no option; else the
/// certificate given raw, else the file named, else those that come with
/// the library.
pub fn root_source(endpoint: &Locator) -> (source: RootSource)
    ensures
        source@ == root_source_of(endpoint@.options),
{
    if endpoint.options().len() == 0 {
        return RootSource::Empty;
    }
    match material(endpoint, TLS_ROOT_CA_CERTIFICATE_RAW, TLS_ROOT_CA_CERTIFICATE_FILE) {
        Material::Raw(bytes) => RootSource::Raw(bytes),
        Material::File(name) => RootSource::File(name),
        Material::Missing => RootSource::WebPki,
    }
}

/// What a listener is asked to serve with: where its private key and its
/// certificates are to be had from, and whether its clients are to show a
/// certificate, which is not known where the option cannot be read.
#[derive(Debug)]
pub struct ListenerPlan {
    pub private_key: Material,
    pub certificate: Material,
    pub client_auth: Option<bool>,
}

/// What the options of an endpoint ask a listener to serve with: a
/// private key and certificates, each given raw or else by the name of a
/// file, and what `client_auth` says. Nothing is refused here: the
/// material is read first, and then everything is looked at together.
pub fn listener_plan(endpoint: &Locator) -> (plan: ListenerPlan)
    ensures
        plan.client_auth == client_auth_of(endpoint@.options),
        plan.private_key@ == material_of(
            endpoint@.options,
            TLS_SERVER_PRIVATE_KEY_RAW@,
            TLS_SERVER_PRIVATE_KEY_FILE@,
        ),
        plan.certificate@ == material_of(
            endpoint@.options,
            TLS_SERVER_CERTIFICATE_RAW@,
            TLS_SERVER_CERTIFICATE_FILE@,
        ),
{
    let private_key = material(endpoint, TLS_SERVER_PRIVATE_KEY_RAW, TLS_SERVER_PRIVATE_KEY_FILE);
    let certificate = material(endpoint, TLS_SERVER_CERTIFICATE_RAW, TLS_SERVER_CERTIFICATE_FILE);
    let client_auth = match endpoint.option(TLS_CLIENT_AUTH) {
        None => Some(false),
        Some(value) => {
            if same_text(value.as_str(), "true") {
                Some(true)
            } else if same_text(value.as_str(), "false") {
                Some(false)
            } else {
                None
            }
        },
    };
    ListenerPlan { private_key, certificate, client_auth }
}

/// What `rustls_pemfile::rsa_private_keys` reads from PEM text: the RSA
/// private keys in it, each in DER, in order; nothing where the text is
/// malformed.
pub uninterp spec fn pem_rsa_private_keys(pem: Seq<u8>) -> Option<Seq<Seq<u8>>>;

/// What `rustls_pemfile::certs` reads from PEM text: the certificates in
/// it, each in DER, in order; nothing where the text is malformed.
pub uninterp spec fn pem_certs(pem: Seq<u8>) -> Option<Seq<Seq<u8>>>;

/// The views of what was read from PEM text.
pub open spec fn der_views(items: Option<Vec<Vec<u8>>>) -> Option<Seq<Seq<u8>>> {
    match items {
        Some(v) => Some(views(v@)),
        None => None,
    }
}

/// `rustls_pemfile::rsa_private_keys` on bytes in memory.
#[verifier::external_body]
fn read_rsa_private_keys(pem: &[u8]) -> (keys: Option<Vec<Vec<u8>>>)
    ensures
        der_views(keys) == pem_rsa_private_keys(pem@),
{
    rustls_pemfile::rsa_private_keys(&mut std::io::Cursor::new(pem)).ok()
}

/// `rustls_pemfile::certs` on bytes in memory.
#[verifier::external_body]
fn read_certs(pem: &[u8]) -> (certs: Option<Vec<Vec<u8>>>)
    ensures
        der_views(certs) == pem_certs(pem@),
{
    rustls_pemfile::certs(&mut std::io::Cursor::new(pem)).ok()
}

/// What a server shows to its clients: its certificates and its private
/// key, each in DER.
#[derive(Debug)]
pub struct ServerIdentity {
    pub certificates: Vec<Vec<u8>>,
    pub private_key: Vec<u8>,
}

/// The identity that the material of a server gives, or what is wrong
/// with it. A `client_auth` that cannot be read comes first; then the
/// private key is looked at, then the certificates, then the wish for
/// client authentication, which is not supported. The first of the keys
/// is the key of the server.
pub open spec fn identity_of(
    key_given: bool,
    keys: Option<Seq<Seq<u8>>>,
    certificate_given: bool,
    certificates: Option<Seq<Seq<u8>>>,
    client_auth: Option<bool>,
) -> Result<(Seq<Seq<u8>>, Seq<u8>), ConfigFault> {
    if client_auth is None {
        Err(ConfigFault::MalformedClientAuth)
    } else if !key_given {
        Err(ConfigFault::MissingPrivateKey)
    } else if keys is None {
        Err(ConfigFault::MalformedPrivateKey)
    } else if !certificate_given {
        Err(ConfigFault::MissingCertificate)
    } else if certificates is None {
        Err(ConfigFault::MalformedCertificate)
    } else if client_auth == Some(true) {
        Err(ConfigFault::ClientAuthUnsupported)
    } else if keys->0.len() == 0 {
        Err(ConfigFault::MalformedPrivateKey)
    } else {
        Ok((certificates->0, keys->0[0]))
    }
}

/// The view of an identity, or of what is wrong.
pub open spec fn identity_view(r: ZResult<ServerIdentity>) -> Result<
    (Seq<Seq<u8>>, Seq<u8>),
    ZError,
> {
    match r {
        Ok(identity) => Ok((views(identity.certificates@), identity.private_key@)),
        Err(e) => Err(e),
    }
}

/// The result with its fault as an error of the library.
pub open spec fn as_config_error(r: Result<(Seq<Seq<u8>>, Seq<u8>), ConfigFault>) -> Result<
    (Seq<Seq<u8>>, Seq<u8>),
    ZError,
> {
    match r {
        Ok(identity) => Ok(identity),
        Err(fault) => Err(ZError::ConfigError { fault }),
    }
}

/// The identity of a server from what was read of its material.
pub fn choose_identity(
    key_given: bool,
    keys: Option<Vec<Vec<u8>>>,
    certificate_given: bool,
    certificates: Option<Vec<Vec<u8>>>,
    client_auth: Option<bool>,
) -> (r: ZResult<ServerIdentity>)
    ensures
        identity_view(r) == as_config_error(
            identity_of(
                key_given,
                der_views(keys),
                certificate_given,
                der_views(certificates),
                client_auth,
            ),
        ),
{
    let client_auth = match client_auth {
        Some(client_auth) => client_auth,
        None => {
            return Err(ZError::ConfigError { fault: ConfigFault::MalformedClientAuth });
        },
    };
    if !key_given {
        return Err(ZError::ConfigError { fault: ConfigFault::MissingPrivateKey });
    }
    let mut keys = match keys {
        Some(keys) => keys,
        None => {
            return Err(ZError::ConfigError { fault: ConfigFault::MalformedPrivateKey });
        },
    };
    if !certificate_given {
        return Err(ZError::ConfigError { fault: ConfigFault::MissingCertificate });
    }
    let certificates = match certificates {
        Some(certificates) => certificates,
        None => {
            return Err(ZError::ConfigError { fault: ConfigFault::MalformedCertificate });
        },
    };
    if client_auth {
        return Err(ZError::ConfigError { fault: ConfigFault::ClientAuthUnsupported });
    }
    if keys.len() == 0 {
        return Err(ZError::ConfigError { fault: ConfigFault::MalformedPrivateKey });
    }
    let ghost first = keys@[0]@;
    let private_key = keys.swap_remove(0);
    assert(private_key@ == first);
    Ok(ServerIdentity { certificates, private_key })
}

/// The identity of a server from its material in PEM and from what its
/// endpoint says of client authentication: the private key and the
/// certificates as they were given or read from their files, empty where
/// there was none.
pub fn server_identity(private_key: &[u8], certificate: &[u8], client_auth: Option<bool>) -> (r:
    ZResult<ServerIdentity>)
    ensures
        identity_view(r) == as_config_error(
            identity_of(
                private_key@.len() > 0,
                pem_rsa_private_keys(private_key@),
                certificate@.len() > 0,
                pem_certs(certificate@),
                client_auth,
            ),
        ),
{
    choose_identity(
        private_key.len() > 0,
        read_rsa_private_keys(private_key),
        certificate.len() > 0,
        read_certs(certificate),
        client_auth,
    )
}

/// The certificates of the authorities that a client trusts, from a file
/// in PEM. Malformed text is an error.
pub fn root_certificates(pem: &[u8]) -> (r: ZResult<Vec<Vec<u8>>>)
    ensures
        match r {
            Ok(certs) => pem_certs(pem@) == Some(views(certs@)),
            Err(e) => e == (ZError::ConfigError { fault: ConfigFault::MalformedCertificate })
                && pem_certs(pem@) is None,
        },
{
    match read_certs(pem) {
        Some(certs) => Ok(certs),
        None => Err(ZError::ConfigError { fault: ConfigFault::MalformedCertificate }),
    }
}


/// The family of an address.
#[derive(Debug, Clone, Copy, PartialEq, Eq, Structural)]
pub enum IpFamily {
    V4,
    V6,
}

/// The address that a socket is bound to: the family of the address,
/// whether it is the address that stands for every interface, its text,
/// and the port.
#[derive(Debug)]
pub struct SocketAddress {
    pub family: IpFamily,
    pub unspecified: bool,
    pub host: String,
    pub port: u16,
}

/// What a `SocketAddress` holds.
pub struct SocketAddressView {
    pub family: IpFamily,
    pub unspecified: bool,
    pub host: Seq<char>,
    pub port: u16,
}

impl View for SocketAddress {
    type V = SocketAddressView;

    open spec fn view(&self) -> SocketAddressView {
        SocketAddressView {
            family: self.family,
            unspecified: self.unspecified,
            host: self.host@,
            port: self.port,
        }
    }
}

impl SocketAddress {
    /// Whether two addresses are the same socket: the same text and the
    /// same port.
    pub open spec fn spec_same(a: SocketAddressView, b: SocketAddressView) -> bool {
        a.host == b.host && a.port == b.port
    }

    /// Whether two addresses are the same socket.
    pub fn same(&self, other: &SocketAddress) -> (r: bool)
        ensures
            r == Self::spec_same(self@, other@),
    {
        self.port == other.port && same_text(self.host.as_str(), other.host.as_str())
    }
}

/// A link over TLS between two sockets.
#[derive(Debug)]
pub struct LinkUnicastTls {
    src_addr: SocketAddress,
    src_locator: Locator,
    dst_addr: SocketAddress,
    dst_locator: Locator,
}

/// The locator of a socket reached over TLS.
pub open spec fn tls_locator(address: SocketAddressView) -> LocatorView {
    LocatorView {
        scheme: Scheme::Tls,
        host: address.host,
        port: address.port,
        options: Seq::empty(),
    }
}

impl LinkUnicastTls {
    /// The link between the socket at `src_addr` here and the socket at
    /// `dst_addr` there.
    pub fn new(src_addr: SocketAddress, dst_addr: SocketAddress) -> (link: LinkUnicastTls)
        ensures
            link.spec_src() == tls_locator(src_addr@),
            link.spec_dst() == tls_locator(dst_addr@),
    {
        let src_locator = Locator::new(Scheme::Tls, src_addr.host.clone(), src_addr.port, Vec::new());
        let dst_locator = Locator::new(Scheme::Tls, dst_addr.host.clone(), dst_addr.port, Vec::new());
        assert(src_locator@.options =~= Seq::empty());
        assert(dst_locator@.options =~= Seq::empty());
        LinkUnicastTls { src_addr, src_locator, dst_addr, dst_locator }
    }

    /// The locator of this end, in specifications.
    pub closed spec fn spec_src(&self) -> LocatorView {
        self.src_locator@
    }

    /// The locator of the other end, in specifications.
    pub closed spec fn spec_dst(&self) -> LocatorView {
        self.dst_locator@
    }

    /// The locator of this end.
    pub fn get_src(&self) -> (locator: &Locator)
        ensures
            locator@ == self.spec_src(),
    {
        &self.src_locator
    }

    /// The locator of the other end.
    pub fn get_dst(&self) -> (locator: &Locator)
        ensures
            locator@ == self.spec_dst(),
    {
        &self.dst_locator
    }

    /// The largest unit that the link transmits at once.
    pub fn get_mtu(&self) -> (mtu: u16)
        ensures
            mtu == TLS_DEFAULT_MTU,
            mtu >= 1024,
    {
        TLS_DEFAULT_MTU
    }

    /// Whether the link delivers what it takes: it does.
    pub fn is_reliable(&self) -> (r: bool)
        ensures
            r,
    {
        true
    }

    /// Whether the link is a stream of bytes, in which messages have to be
    /// framed: it is.
    pub fn is_streamed(&self) -> (r: bool)
        ensures
            r,
    {
        true
    }
}

/// A listener: the socket that it is bound to and the endpoint that it was
/// asked for.
#[derive(Debug)]
pub struct ListenerUnicastTls {
    pub address: SocketAddress,
    pub endpoint: Locator,
}

/// What a listener holds.
pub struct ListenerView {
    pub address: SocketAddressView,
    pub endpoint: LocatorView,
}

impl View for ListenerUnicastTls {
    type V = ListenerView;

    open spec fn view(&self) -> ListenerView {
        ListenerView { address: self.address@, endpoint: self.endpoint@ }
    }
}

/// The views of a list of listeners.
pub open spec fn listener_views(listeners: Seq<ListenerUnicastTls>) -> Seq<ListenerView> {
    listeners.map_values(|l: ListenerUnicastTls| l@)
}

/// The rank of the listener on the socket `address`, or the number of
/// listeners if there is none.
pub open spec fn rank_of(listeners: Seq<ListenerView>, address: SocketAddressView) -> int
    decreases listeners.len(),
{
    if listeners.len() == 0 || SocketAddress::spec_same(listeners[0].address, address) {
        0
    } else {
        1 + rank_of(listeners.drop_first(), address)
    }
}

/// No two listeners are on one socket.
pub open spec fn distinct_sockets(listeners: Seq<ListenerView>) -> bool {
    forall|i: int, j: int|
        0 <= i < j < listeners.len() ==> !SocketAddress::spec_same(
            (#[trigger] listeners[i]).address,
            (#[trigger] listeners[j]).address,
        )
}

/// The endpoints of the listeners, in order.
pub open spec fn endpoints_of(listeners: Seq<ListenerView>) -> Seq<LocatorView> {
    listeners.map_values(|l: ListenerView| l.endpoint)
}

/// The locators under which one listener can be reached: its own, or, if
/// it is bound to every interface, one for each address of its family
/// that the machine has, on its port and with its options.
pub open spec fn reachable_at(
    listener: ListenerView,
    ipv4: Seq<Seq<char>>,
    ipv6: Seq<Seq<char>>,
) -> Seq<LocatorView> {
    if listener.address.unspecified {
        (match listener.address.family {
            IpFamily::V4 => ipv4,
            IpFamily::V6 => ipv6,
        }).map_values(
            |host: Seq<char>|
                LocatorView {
                    scheme: Scheme::Tls,
                    host,
                    port: listener.address.port,
                    options: listener.endpoint.options,
                },
        )
    } else {
        seq![listener.endpoint]
    }
}

/// The locators under which the listeners can be reached, listener by
/// listener.
pub open spec fn locators_of(
    listeners: Seq<ListenerView>,
    ipv4: Seq<Seq<char>>,
    ipv6: Seq<Seq<char>>,
) -> Seq<LocatorView>
    decreases listeners.len(),
{
    if listeners.len() == 0 {
        Seq::empty()
    } else {
        locators_of(listeners.drop_last(), ipv4, ipv6) + reachable_at(listeners.last(), ipv4, ipv6)
    }
}

/// The views of a list of texts.
pub open spec fn text_views(texts: Seq<String>) -> Seq<Seq<char>> {
    texts.map_values(|t: String| t@)
}

/// The views of a list of locators.
pub open spec fn locator_views(locators: Seq<Locator>) -> Seq<LocatorView> {
    locators.map_values(|l: Locator| l@)
}

proof fn lemma_rank_of(listeners: Seq<ListenerView>, address: SocketAddressView, k: int)
    requires
        0 <= k <= listeners.len(),
        forall|j: int|
            0 <= j < k ==> !SocketAddress::spec_same((#[trigger] listeners[j]).address, address),
        k == listeners.len() || SocketAddress::spec_same(listeners[k].address, address),
    ensures
        rank_of(listeners, address) == k,
    decreases listeners.len(),
{
    if k > 0 {
        lemma_rank_of(listeners.drop_first(), address, k - 1);
    }
}

/// The listeners of a manager of links over TLS: at most one on each
/// socket.
pub struct LinkManagerUnicastTls {
    listeners: Vec<ListenerUnicastTls>,
}

impl View for LinkManagerUnicastTls {
    type V = Seq<ListenerView>;

    closed spec fn view(&self) -> Seq<ListenerView> {
        listener_views(self.listeners@)
    }
}

impl LinkManagerUnicastTls {
    #[verifier::type_invariant]
    spec fn one_per_socket(self) -> bool {
        distinct_sockets(listener_views(self.listeners@))
    }

    /// A manager without listeners.
    pub fn new() -> (manager: Self)
        ensures
            manager@ == Seq::<ListenerView>::empty(),
    {
        let manager = Self { listeners: Vec::new() };
        assert(listener_views(manager.listeners@) =~= Seq::empty());
        manager
    }

    /// The number of listeners. No two of them are on one socket.
    pub fn len(&self) -> (n: usize)
        ensures
            n == self@.len(),
            distinct_sockets(self@),
    {
        proof {
            use_type_invariant(self);
        }
        self.listeners.len()
    }

    fn find(&self, address: &SocketAddress) -> (k: usize)
        ensures
            k == rank_of(self@, address@),
            k <= self@.len(),
            k < self@.len() ==> SocketAddress::spec_same(self@[k as int].address, address@),
            forall|j: int|
                0 <= j < k ==> !SocketAddress::spec_same((#[trigger] self@[j]).address, address@),
    {
        let mut k: usize = 0;
        while k < self.listeners.len()
            invariant
                k <= self.listeners.len(),
                forall|j: int|
                    0 <= j < k ==> !SocketAddress::spec_same(
                        (#[trigger] listener_views(self.listeners@)[j]).address,
                        address@,
                    ),
            decreases self.listeners.len() - k,
        {
            if self.listeners[k].address.same(address) {
                proof {
                    lemma_rank_of(self@, address@, k as int);
                }
                return k;
            }
            k += 1;
        }
        proof {
            lemma_rank_of(self@, address@, k as int);
        }
        k
    }

    /// Enters a listener. It takes the place of the listener on the same
    /// socket, if there is one, and comes last if there is none.
    pub fn add_listener(&mut self, listener: ListenerUnicastTls)
        ensures
            final(self)@ == if rank_of(old(self)@, listener@.address) < old(self)@.len() {
                old(self)@.update(rank_of(old(self)@, listener@.address), listener@)
            } else {
                old(self)@.push(listener@)
            },
    {
        proof {
            use_type_invariant(&*self);
        }
        let ghost before = self@;
        let ghost entry = listener@;
        let k = self.find(&listener.address);
        let mut listeners: Vec<ListenerUnicastTls> = Vec::new();
        std::mem::swap(&mut listeners, &mut self.listeners);
        if k < listeners.len() {
            listeners.set(k, listener);
            assert(listener_views(listeners@) =~= before.update(k as int, entry));
        } else {
            listeners.push(listener);
            assert(listener_views(listeners@) =~= before.push(entry));
        }
        let ghost after = listener_views(listeners@);
        assert forall|i: int, j: int| 0 <= i < j < after.len() implies !SocketAddress::spec_same(
            (#[trigger] after[i]).address,
            (#[trigger] after[j]).address,
        ) by {
            if k < before.len() {
                if i != k && j != k {
                    assert(!SocketAddress::spec_same(before[i].address, before[j].address));
                } else if i == k {
                    assert(!SocketAddress::spec_same(before[k as int].address, before[j].address));
                } else {
                    assert(!SocketAddress::spec_same(before[i].address, before[k as int].address));
                }
            } else {
                if j < before.len() {
                    assert(!SocketAddress::spec_same(before[i].address, before[j].address));
                } else {
                    assert(!SocketAddress::spec_same(before[i].address, entry.address));
                }
            }
        }
        *self = LinkManagerUnicastTls { listeners };
    }

    /// Takes out the listener on the socket `address` and hands it over.
    /// That there is none is an error.
    pub fn del_listener(&mut self, address: &SocketAddress) -> (r: ZResult<ListenerUnicastTls>)
        ensures
            match r {
                Ok(listener) => {
                    let k = rank_of(old(self)@, address@);
                    &&& k < old(self)@.len()
                    &&& listener@ == old(self)@[k]
                    &&& final(self)@ == old(self)@.remove(k)
                },
                Err(e) => e == ZError::InvalidLocator && rank_of(old(self)@, address@) >= old(
                    self,
                )@.len() && final(self)@ == old(self)@,
            },
    {
        proof {
            use_type_invariant(&*self);
        }
        let ghost before = self@;
        let k = self.find(address);
        if k >= self.listeners.len() {
            return Err(ZError::InvalidLocator);
        }
        let mut listeners: Vec<ListenerUnicastTls> = Vec::new();
        std::mem::swap(&mut listeners, &mut self.listeners);
        let listener = listeners.remove(k);
        assert(listener_views(listeners@) =~= before.remove(k as int));
        assert(distinct_sockets(listener_views(listeners@)));
        *self = LinkManagerUnicastTls { listeners };
        Ok(listener)
    }

    /// The endpoints that the listeners were asked for.
    pub fn get_listeners(&self) -> (endpoints: Vec<Locator>)
        ensures
            locator_views(endpoints@) == endpoints_of(self@),
    {
        let mut endpoints: Vec<Locator> = Vec::new();
        let mut i: usize = 0;
        assert(locator_views(endpoints@) =~= endpoints_of(self@).take(0));
        while i < self.listeners.len()
            invariant
                i <= self.listeners.len(),
                locator_views(endpoints@) == endpoints_of(self@).take(i as int),
            decreases self.listeners.len() - i,
        {
            let ghost before = locator_views(endpoints@);
            let copy = self.listeners[i].endpoint.duplicate();
            let ghost view = copy@;
            endpoints.push(copy);
            assert(locator_views(endpoints@) =~= before.push(view));
            assert(endpoints_of(self@).take(i + 1) =~= endpoints_of(self@).take(i as int).push(
                view,
            ));
            i += 1;
        }
        assert(endpoints_of(self@).take(self@.len() as int) =~= endpoints_of(self@));
        endpoints
    }

    /// The locators under which the listeners can be reached, given the
    /// addresses of the machine as text: the locator of each listener, or,
    /// for a listener that is bound to every interface, one locator for
    /// each address of its family.
    pub fn get_locators(&self, ipv4: &Vec<String>, ipv6: &Vec<String>) -> (locators: Vec<Locator>)
        ensures
            locator_views(locators@) == locators_of(self@, text_views(ipv4@), text_views(ipv6@)),
    {
        let ghost v4 = text_views(ipv4@);
        let ghost v6 = text_views(ipv6@);
        let mut locators: Vec<Locator> = Vec::new();
        let mut i: usize = 0;
        assert(self@.take(0) =~= Seq::<ListenerView>::empty());
        assert(locator_views(locators@) =~= Seq::<LocatorView>::empty());
        while i < self.listeners.len()
            invariant
                i <= self.listeners.len(),
                v4 == text_views(ipv4@),
                v6 == text_views(ipv6@),
                locator_views(locators@) == locators_of(self@.take(i as int), v4, v6),
            decreases self.listeners.len() - i,
        {
            let listener = &self.listeners[i];
            let ghost done = locator_views(locators@);
            let ghost upto = self@.take(i + 1);
            assert(upto.drop_last() =~= self@.take(i as int));
            assert(upto.last() == listener@);
            if listener.address.unspecified {
                let hosts = match listener.address.family {
                    IpFamily::V4 => ipv4,
                    IpFamily::V6 => ipv6,
                };
                let ghost all = reachable_at(listener@, v4, v6);
                let mut j: usize = 0;
                assert(done + all.take(0) =~= done);
                while j < hosts.len()
                    invariant
                        j <= hosts.len(),
                        all == reachable_at(listener@, v4, v6),
                        all.len() == hosts.len(),
                        listener.address.unspecified,
                        text_views(hosts@) == (match listener@.address.family {
                            IpFamily::V4 => v4,
                            IpFamily::V6 => v6,
                        }),
                        locator_views(locators@) == done + all.take(j as int),
                    decreases hosts.len() - j,
                {
                    let ghost so_far = locator_views(locators@);
                    let locator = Locator::new(
                        Scheme::Tls,
                        hosts[j].clone(),
                        listener.address.port,
                        copy_options(listener.endpoint.options()),
                    );
                    let ghost view = locator@;
                    assert(text_views(hosts@)[j as int] == hosts@[j as int]@);
                    assert(view == all[j as int]);
                    locators.push(locator);
                    assert(locator_views(locators@) =~= so_far.push(view));
                    assert(done + all.take(j + 1) =~= (done + all.take(j as int)).push(view));
                    j += 1;
                }
                assert(all.take(hosts.len() as int) =~= all);
            } else {
                let copy = listener.endpoint.duplicate();
                let ghost view = copy@;
                locators.push(copy);
                assert(locator_views(locators@) =~= done + seq![view]);
            }
            i += 1;
        }
        assert(self@.take(self@.len() as int) =~= self@);
        locators
    }
}

/// A copy of a list of options.
fn copy_options(options: &Vec<(String, String)>) -> (r: Vec<(String, String)>)
    ensures
        option_views(r@) == option_views(options@),
{
    let mut out: Vec<(String, String)> = Vec::new();
    let mut i: usize = 0;
    assert(option_views(out@) =~= option_views(options@).take(0));
    while i < options.len()
        invariant
            i <= options.len(),
            option_views(out@) == option_views(options@).take(i as int),
        decreases options.len() - i,
    {
        let ghost before = option_views(out@);
        let name = options[i].0.clone();
        let value = options[i].1.clone();
        let ghost copy = (name@, value@);
        assert(copy == option_views(options@)[i as int]);
        out.push((name, value));
        assert(option_views(out@) =~= before.push(copy));
        assert(option_views(out@) =~= option_views(options@).take(i + 1));
        i += 1;
    }
    assert(option_views(options@).take(options@.len() as int) =~= option_views(options@));
    out
}

/// What the loop that accepts connections has just seen.
#[derive(Debug, Clone, Copy, PartialEq, Eq, Structural)]
pub enum AcceptEvent {
    /// The loop starts.
    Started,
    /// A connection came in.
    Accepted,
    /// Accepting failed.
    AcceptFailed,
    /// The listener was told to stop.
    Stopped,
    /// The wait after a failure is over.
    Throttled,
    /// The TLS handshake with the connection that came in succeeded.
    HandshakeDone,
    /// The TLS handshake with the connection that came in failed.
    HandshakeFailed,
    /// The new link was handed to the manager, or could not be.
    Published,
}

/// What the loop that accepts connections is to do next.
#[derive(Debug, Clone, Copy, PartialEq, Eq, Structural)]
pub enum AcceptAction {
    /// Wait for a connection or for the order to stop, whichever comes
    /// first.
    Wait,
    /// Wait for so many microseconds.
    Throttle { micros: u64 },
    /// Shake hands with the connection that came in.
    Handshake,
    /// Make a link of the connection and hand it to the manager.
    Publish,
    /// Leave the loop, and take the listener out of the manager.
    Exit,
}

/// What the loop does after `event`, while the listener is `active` or
/// not.
pub open spec fn spec_accept_step(active: bool, event: AcceptEvent) -> AcceptAction {
    match event {
        AcceptEvent::Accepted => AcceptAction::Handshake,
        AcceptEvent::AcceptFailed => AcceptAction::Throttle { micros: TLS_ACCEPT_THROTTLE_TIME },
        AcceptEvent::Stopped => AcceptAction::Exit,
        AcceptEvent::HandshakeDone => AcceptAction::Publish,
        AcceptEvent::Started | AcceptEvent::Throttled | AcceptEvent::HandshakeFailed
        | AcceptEvent::Published => if active {
            AcceptAction::Wait
        } else {
            AcceptAction::Exit
        },
    }
}

/// One step of the loop that accepts connections. A connection that came
/// in is shaken hands with, and made a link of if that succeeds. A failed
/// accept is followed by a wait, a failed handshake is not; after either
/// the loop goes on, as it does after a link was made. The loop ends when
/// the listener is told to stop, and at the start of a round when the
/// listener is not active any more.
#[verifier::when_used_as_spec(spec_accept_step)]
pub fn accept_step(active: bool, event: AcceptEvent) -> (action: AcceptAction)
    ensures
        action == spec_accept_step(active, event),
{
    match event {
        AcceptEvent::Accepted => AcceptAction::Handshake,
        AcceptEvent::AcceptFailed => AcceptAction::Throttle { micros: TLS_ACCEPT_THROTTLE_TIME },
        AcceptEvent::Stopped => AcceptAction::Exit,
        AcceptEvent::HandshakeDone => AcceptAction::Publish,
        _ => if active {
            AcceptAction::Wait
        } else {
            AcceptAction::Exit
        },
    }
}

/// A failed accept does not end the loop of an active listener: the loop
/// waits, and then waits for the next connection.
pub proof fn lemma_accept_failure_is_survived(active: bool)
    requires
        active,
    ensures
        accept_step(active, AcceptEvent::AcceptFailed) == (AcceptAction::Throttle {
            micros: TLS_ACCEPT_THROTTLE_TIME,
        }),
        accept_step(active, AcceptEvent::Throttled) == AcceptAction::Wait,
        accept_step(active, AcceptEvent::Accepted) == AcceptAction::Handshake,
        accept_step(active, AcceptEvent::HandshakeDone) == AcceptAction::Publish,
{
}

} // verus!
