# metro_services

Services that arrange staff assistance for metro passengers: a gateway in
front of the services, a station service answering route and
nearest-station queries over the metro map, and an order service that
assigns employees on shift to a passenger's request.

`src/` is the verified library:

- `registry`, `gateway`, `rate_limiter`: the service registry, how the
  gateway routes a request and when it demands a user, the per-client
  allowance.
- `tokens`, `jwt`: EdDSA access/refresh tokens, single-use refresh tokens
  and the revocation that follows a reuse.
- `metro`: the map built from the map data and the station names, stored
  as parts, and the shortest-route and nearest-stations queries (`petgraph`
  underneath).
- `orders`: requests, shifts, the search for candidates and the choice of
  the employees of an order.
- `text`, `keyed`, `ids`, `api`, `records`: strings, a small string-keyed
  map, identifiers, answers and stored records.
- `laws`: properties that span several operations.

`app/` holds the HTTP servers, file and database access and the JSON
copies of the library's types; `tests/` exercises the library.
