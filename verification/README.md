# mergemint-backend

The bounty backend of MergeMint, in two parts.

`src/` is a library that Verus verifies:

- `db`: the store of bounty records, the shared lock around it, and the listings
  by creator and by assignee;
- `claims`: how a claim is stored, and what holds of the listings afterwards;
- `lock`: what the library trusts of std's reader-writer lock;
- `paging`: pages of bounties, newest first, cut to a limit and continued by a
  cursor;
- `paging_laws`, `listing_laws`, `page_walk_laws`, `counterpart_laws`: what holds
  of pages, of listings, of asking for page after page, and of the two listings
  beside each other;
- `routes::bounties`: what the HTTP endpoints answer;
- `allowlist`: whether the allowlist of reward tokens names any;
- `timestamp`: instants as plain integers.

`app/` is the server around it: the router and its middleware, the handlers, and
the JSON forms of what the library takes and gives. The library reads and writes no
JSON itself: a listing is handed the function that reads a record, and a claim also
the one that rewrites it. A request that claims a bounty names who claims it in its
query, as `address`; without one, nothing is stored.
