//! The listener and the orchestrator.
//!
//! An [`AppServer`] owns exactly one server configuration and knows which
//! ports it is meant to bind: the plain-HTTP port and, if TLS material is
//! configured, the TLS port — each absent field means "bind nothing", a
//! legal, silent state.  A [`ServerSetup`] owns the listeners of the
//! currently loaded test; loading appends one listener per server entry,
//! in declared order, and starts nothing.  Binding the sockets and running
//! the accept loops is the embedding program's job; it reads the plan from
//! these types and hands each inbound request to
//! [`crate::routing::request_handler`].

use vstd::prelude::*;
use vstd::string::StringExecFns;

use crate::config::{
    AppConfiguration, ServerConfiguration, ServerImage, TestConfiguration,
};
use crate::error::ApplicationError;

verus! {

/// One listener: the runtime object for one server configuration.
#[derive(Debug)]
pub struct AppServer {
    /// The configuration this listener serves.
    pub server_configuration: ServerConfiguration,
}

impl DeepView for AppServer {
    type V = ServerImage;

    open spec fn deep_view(&self) -> ServerImage {
        self.server_configuration.deep_view()
    }
}

impl AppServer {
    /// Wrap one server configuration.
    pub fn new(server_configuration: ServerConfiguration) -> (r: Self)
        ensures
            r.server_configuration == server_configuration,
    {
        AppServer { server_configuration }
    }

    /// The plain-HTTP port this listener is meant to bind, if any.
    pub fn http_port(&self) -> (r: Option<u16>)
        ensures
            r == self.deep_view().http_port,
    {
        self.server_configuration.http_port
    }

    /// The TLS port this listener is meant to bind, if TLS is configured.
    pub fn https_port(&self) -> (r: Option<u16>)
        ensures
            r == match self.deep_view().https_config {
                Some(h) => Some(h.https_port),
                None => None::<u16>,
            },
    {
        match &self.server_configuration.https_config {
            Option::Some(h) => Some(h.https_port),
            Option::None => None,
        }
    }
}

/// The orchestrator: owns the listeners of the currently loaded test.
/// Its abstract value is the sequence of their server images, in load
/// order.
#[derive(Debug)]
pub struct ServerSetup {
    servers: Vec<AppServer>,
}

impl View for ServerSetup {
    type V = Seq<ServerImage>;

    closed spec fn view(&self) -> Seq<ServerImage> {
        self.servers.deep_view()
    }
}

impl ServerSetup {
    /// An orchestrator with no listeners loaded.
    pub fn new() -> (r: Self)
        ensures
            r@ == Seq::<ServerImage>::empty(),
    {
        let r = ServerSetup { servers: Vec::new() };
        proof {
            assert(r@ =~= Seq::<ServerImage>::empty());
        }
        r
    }

    /// Load a test: append one listener per server entry, in declared
    /// order.  Nothing is started.
    pub fn setup_test(&mut self, test_configuration: &TestConfiguration)
        ensures
            final(self)@ == old(self)@ + test_configuration.deep_view().servers,
    {
        let ghost loaded = self@;
        let ghost incoming = test_configuration.deep_view().servers;
        proof {
            crate::config::lemma_deep_view_len(&test_configuration.servers);
        }
        let n = test_configuration.servers.len();
        let mut i: usize = 0;
        while i < n
            invariant
                n == test_configuration.servers@.len(),
                i <= n,
                incoming == test_configuration.deep_view().servers,
                incoming.len() == n,
                self@ == loaded + incoming.take(i as int),
            decreases n - i,
        {
            let ghost before = self@;
            let server = test_configuration.servers[i].clone();
            proof {
                crate::config::lemma_deep_view_index(&test_configuration.servers, i as int);
            }
            self.servers.push(AppServer::new(server));
            proof {
                crate::config::lemma_deep_view_len(&self.servers);
                assert forall|k: int| 0 <= k < self.servers@.len() implies self@[k] == before.push(
                    incoming[i as int],
                )[k] by {
                    crate::config::lemma_deep_view_index(&self.servers, k);
                }
                assert(self@ =~= before.push(incoming[i as int]));
                assert(self@ =~= loaded + incoming.take(i as int + 1));
            }
            i += 1;
        }
        proof {
            assert(incoming.take(n as int) =~= incoming);
        }
    }

    /// The listeners loaded so far, in load order.
    pub fn servers(&self) -> (r: &Vec<AppServer>)
        ensures
            r.deep_view() == self@,
    {
        &self.servers
    }

    /// How many listeners are loaded.
    pub fn server_count(&self) -> (r: usize)
        ensures
            r == self@.len(),
    {
        proof {
            crate::config::lemma_deep_view_len(&self.servers);
        }
        self.servers.len()
    }
}

/// The first test in `tests` whose id is `id` — the selection that
/// `get_test` makes.
pub open spec fn test_id_present(tests: Seq<crate::config::TestImage>, id: Seq<char>) -> bool {
    exists|j: int| 0 <= j < tests.len() && #[trigger] tests[j].id == id
}

/// Select the test with the given id: the first test whose id equals `id`,
/// or a `CouldNotFindTest` error naming the id when there is none.
pub fn get_test<'a>(id: &str, config: &'a AppConfiguration) -> (r: Result<
    &'a TestConfiguration,
    ApplicationError,
>)
    ensures
        r is Ok <==> test_id_present(config.deep_view().tests, id@),
        r is Ok ==> exists|k: int|
            {
                &&& 0 <= k < config.deep_view().tests.len()
                &&& #[trigger] config.deep_view().tests[k].id == id@
                &&& r->Ok_0.deep_view() == config.deep_view().tests[k]
                &&& forall|j: int| 0 <= j < k ==> config.deep_view().tests[j].id != id@
            },
        r is Err ==> r->Err_0 is CouldNotFindTest && r->Err_0.spec_detail() == "No test with id: "@
            + id@,
{
    let ghost tests = config.deep_view().tests;
    proof {
        crate::config::lemma_deep_view_len(&config.tests);
    }
    let n = config.tests.len();
    let needle = id.to_owned();
    let mut i: usize = 0;
    while i < n
        invariant
            n == config.tests@.len(),
            i <= n,
            tests == config.deep_view().tests,
            tests.len() == n,
            needle@ == id@,
            forall|j: int| 0 <= j < i ==> #[trigger] tests[j].id != id@,
        decreases n - i,
    {
        let t = &config.tests[i];
        proof {
            crate::config::lemma_deep_view_index(&config.tests, i as int);
        }
        if t.id == needle {
            proof {
                assert(tests[i as int].id == id@);
                assert(exists|k: int|
                    {
                        &&& 0 <= k < tests.len()
                        &&& #[trigger] tests[k].id == id@
                        &&& t.deep_view() == tests[k]
                        &&& forall|j: int| 0 <= j < k ==> tests[j].id != id@
                    });
            }
            return Ok(t);
        }
        i += 1;
    }
    let mut detail = String::from_str("No test with id: ");
    detail.append(id);
    Err(ApplicationError::CouldNotFindTest(detail))
}

} // verus!
