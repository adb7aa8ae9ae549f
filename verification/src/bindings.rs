//! Bindings whose wrapper crates share the runtime's tokio.
use crate::text::str_eq;
use vstd::prelude::*;

verus! {

/// A binding that uses tokio: the wrapper crate, its library, and what tracks
/// it.
pub type Binding = (String, String, Option<String>);

/// The wrapper crates of bindings.
pub open spec fn krates(bindings: Seq<Binding>) -> Seq<Seq<char>> {
    bindings.map_values(|b: Binding| b.0@)
}

/// The modules whose wrapper crate has its own tokio dependency.
pub open spec fn shared_tokio_modules() -> Seq<Seq<char>> {
    seq![
        "net"@,
        "ws"@,
        "http"@,
        "https"@,
        "http2"@,
        "axios"@,
        "node-fetch"@,
        "fetch"@,
        "undici"@,
        "fastify"@,
        "mongodb"@,
        "pg"@,
        "mysql2"@,
        "mysql2/promise"@,
        "ioredis"@,
        "redis"@,
        "nodemailer"@,
    ]
}

/// True if this binding's wrapper crate has its own tokio dependency
/// for I/O (TcpStream, hyper, reqwest, mongodb, sqlx, redis,
/// tokio-tungstenite, lettre) and must therefore share a single
/// tokio compilation with perry-stdlib's runtime.
///
/// When these wrappers are built in a different target-dir than
/// perry-stdlib, each gets its own private copy of tokio's `CONTEXT`
/// thread-local. perry-stdlib's runtime sets one; the wrapper's
/// `Handle::current()` reads the other (empty) one and panics with
/// "there is no reactor running".
///
/// Wrappers that only use perry-ffi's `spawn_blocking` shim (bcrypt,
/// argon2, sharp) route their async work through perry-stdlib's
/// tokio and don't need this: their own crate has no tokio dep.
pub fn binding_needs_shared_tokio(module: &str) -> (r: bool)
    ensures
        r == shared_tokio_modules().contains(module@),
{
    let r =
        // Raw TCP / TLS sockets
        str_eq(module, "net")
        // WebSocket client/server
        || str_eq(module, "ws")
        // HTTP / HTTPS via reqwest/hyper
        || str_eq(module, "http") || str_eq(module, "https") || str_eq(module, "http2")
        // HTTP clients (reqwest, hyper)
        || str_eq(module, "axios") || str_eq(module, "node-fetch") || str_eq(module, "fetch")
        // Glue over the native fetch stack: it rides the shared build so the
        // driver builds its archive alongside the runtime
        || str_eq(module, "undici")
        // HTTP server (hyper)
        || str_eq(module, "fastify")
        // Database drivers (mongodb, sqlx, redis)
        || str_eq(module, "mongodb") || str_eq(module, "pg") || str_eq(module, "mysql2")
        || str_eq(module, "mysql2/promise") || str_eq(module, "ioredis")
        || str_eq(module, "redis")
        // Mail (lettre)
        || str_eq(module, "nodemailer");
    proof {
        let all = shared_tokio_modules();
        if r {
            assert(exists|i: int| 0 <= i < all.len() && all[i] == module@) by {
                if module@ == "net"@ { assert(all[0] == module@); }
                if module@ == "ws"@ { assert(all[1] == module@); }
                if module@ == "http"@ { assert(all[2] == module@); }
                if module@ == "https"@ { assert(all[3] == module@); }
                if module@ == "http2"@ { assert(all[4] == module@); }
                if module@ == "axios"@ { assert(all[5] == module@); }
                if module@ == "node-fetch"@ { assert(all[6] == module@); }
                if module@ == "fetch"@ { assert(all[7] == module@); }
                if module@ == "undici"@ { assert(all[8] == module@); }
                if module@ == "fastify"@ { assert(all[9] == module@); }
                if module@ == "mongodb"@ { assert(all[10] == module@); }
                if module@ == "pg"@ { assert(all[11] == module@); }
                if module@ == "mysql2"@ { assert(all[12] == module@); }
                if module@ == "mysql2/promise"@ { assert(all[13] == module@); }
                if module@ == "ioredis"@ { assert(all[14] == module@); }
                if module@ == "redis"@ { assert(all[15] == module@); }
                if module@ == "nodemailer"@ { assert(all[16] == module@); }
            }
        }
    }
    r
}

/// The wrapper crates of bindings are those of all the bindings, in their order.
pub proof fn law_krates_of_every_binding(bindings: Seq<Binding>)
    ensures
        krates(bindings).len() == bindings.len(),
        forall|i: int| 0 <= i < bindings.len() ==> #[trigger] krates(bindings)[i] == bindings[i].0@,
{
}

/// The modules whose wrapper crates do network, database or mail I/O, and no
/// others, share the runtime's tokio.
pub proof fn law_modules_with_shared_tokio(module: Seq<char>)
    ensures
        shared_tokio_modules().contains(module) <==> {
            ||| module == "net"@
            ||| module == "ws"@
            ||| module == "http"@
            ||| module == "https"@
            ||| module == "http2"@
            ||| module == "axios"@
            ||| module == "node-fetch"@
            ||| module == "fetch"@
            ||| module == "undici"@
            ||| module == "fastify"@
            ||| module == "mongodb"@
            ||| module == "pg"@
            ||| module == "mysql2"@
            ||| module == "mysql2/promise"@
            ||| module == "ioredis"@
            ||| module == "redis"@
            ||| module == "nodemailer"@
        },
{
    let all = shared_tokio_modules();
    assert(all[0] == "net"@);
    assert(all[1] == "ws"@);
    assert(all[2] == "http"@);
    assert(all[3] == "https"@);
    assert(all[4] == "http2"@);
    assert(all[5] == "axios"@);
    assert(all[6] == "node-fetch"@);
    assert(all[7] == "fetch"@);
    assert(all[8] == "undici"@);
    assert(all[9] == "fastify"@);
    assert(all[10] == "mongodb"@);
    assert(all[11] == "pg"@);
    assert(all[12] == "mysql2"@);
    assert(all[13] == "mysql2/promise"@);
    assert(all[14] == "ioredis"@);
    assert(all[15] == "redis"@);
    assert(all[16] == "nodemailer"@);
    if all.contains(module) {
        let i = all.index_of(module);
        assert(all[i] == module);
    }
}

} // verus!
