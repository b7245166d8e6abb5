# pubsub_server

A publish/subscribe server for WebSocket clients. Clients show a signed token that lists
their channels; messages come from Redis, where a REST interface puts them.

`src/` is the library, verified with Verus:

| Module | What it holds |
|---|---|
| `broadcast` | tokio's broadcast rings, with a record of the calls made on them |
| `lock` | values that threads share, behind `parking_lot`'s lock |
| `channels` | the channels and their rings |
| `table` | what can happen to the channels, and the notices given of them |
| `pubsub` | the hub, which gives notice of the channels that come and go |
| `laws` | what holds of the hub as a whole |
| `basic` | a hub that gives no notice |
| `redis_pubsub` | what the bridge to Redis does on each event |
| `rest_api` | who may publish, and what goes to Redis |
| `server` | who may connect, and what they are subscribed to |
| `token` | the tokens that clients show |
| `address` | the addresses that the server is started with |

Whatever is done with a handle of a hub is on record in its ticket, which exists in proofs
only: a contract says which sections were made, and that there were no others. Functions
named `law_..` state what relates several functions; functions marked
`external_body` call outside crates, and their comments say what is claimed of these calls.

`app/` is the program: sockets, HTTP, Redis, signals and the command line.

    pubsub-server run --address 0.0.0.0 --port 3000 --jwt-secret secret \
        --redis-address 127.0.0.1 --rest-api-key apikey --rest-api-port 3001

A client connects to `ws://host:3000/?token=..`, with a token signed by HMAC with SHA-256
whose claims are `{"subs": ["topic1", "topic2"]}`. A token that also has an `exp` is refused
once it has expired. A message is published with

    curl -X POST -H 'Authorization: Bearer apikey' -H 'Content-Type: application/json' \
        -d '{"channel": "topic1", "data": "message"}' http://127.0.0.1:3001/publish
