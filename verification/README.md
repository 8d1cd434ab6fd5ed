# crowkv

A distributed key-value store on Multi-Paxos with static groups, written and
proved in Verus, and a console that manages a cluster of its servers.

    src/common     configuration, texts, bytes on the wire, counters
    src/paxos      acceptor, learner, ballots and log entries
    src/engine     the key-value engine and the batches it applies
    src/cluster    replicas, groups, proposals, elections, stores
    src/group      the routing table of a group
    src/server     options, startup, the management API
    src/console    racks, nodes and servers; stores, groups and replicas across them
    tests          tests of the library
    app            the program: HTTP, files, processes

The library does no I/O. Where the work alternates with I/O, it says what to do
next and takes in what came of it: a proposal asks for a phase and is handed the
replies, an election is handed the votes, a plan across nodes asks for one call
after the other. `app/` runs those loops.

What the functions promise stands in their contracts; what holds of several of
them together stands in public proof functions, among them:

- `cluster::agreement`: all values chosen at a slot are the same, whatever was
  proposed and whichever members answered, as long as at most one value is
  proposed there without a prepare phase;
- `cluster::kv_store`: a batch that was chosen is read back;
- `cluster::election`: winning takes a quorum, and no election lowers the term;
- `engine::store_engine`: the order in which slots are applied does not matter;
- `console`: plans that fail undo what they did.
