# hop-endpoint

A `hops://` origin endpoint: it makes one HTTP backend reachable over the Hop mesh, for exactly one
domain.

`src/` is the library. It holds the rules of the endpoint, each stated in a contract and proved with
Verus:

| Module   | What it decides                                                              |
| -------- | ---------------------------------------------------------------------------- |
| `config` | flags, environment, relay, normal forms of origin and host, identity         |
| `source` | who sent a request: the forwarded-for list and the trusted front-end         |
| `limits` | budgets per source, places for connections and fetches                       |
| `peek`   | what a new connection is                                                     |
| `head`   | the head of a plain HTTP request                                             |
| `target` | the path of a request, and the one URL that is fetched for it                |
| `proxy`  | what a plain HTTP request is answered                                        |
| `hops`   | what a request from the mesh is answered                                     |
| `record` | the reach record at `/.well-known/hop`                                       |
| `bearer` | the limits on a link, and the pauses between dials                           |
| `link`   | how a link is driven, and how a relay is dialed                              |
| `driver` | what the owner of the node does about each event                             |
| `text`   | characters, case, trimming and decimal numbers                               |

The public proof functions named `law_..` state what holds of several functions together.

`app/` is the program: sockets, threads, files, the clock, the HTTP client and the node.
`tests/` runs the library.

```
hop-endpoint --listen 0.0.0.0:9444 --domain example.hopme.sh \
             --origin http://localhost:8080 [--identity-file PATH] [--max-resp BYTES]
```

`PORT`, `HOP_DOMAIN` and `HOP_IDENTITY_FILE` fill in what no flag says. `HOP_RELAY` and
`HOP_NO_RELAY` choose the relay, `HOP_TRUSTED_PROXY` names the front-end, and `HOP_CLUSTER_SECRET`
lets replicas cluster.
