use core::time::Duration;
use netbench::ext::{ByteExt, DurationExt};
use netbench::op::{ClientOp, ConnectionOp};
use netbench::scenario::Scenario;

fn is_lower_hex_digest(s: &str) -> bool {
    s.len() == 64 && s.bytes().all(|b| b.is_ascii_digit() || (b'a'..=b'f').contains(&b))
}

#[test]
fn simple() {
    let scenario = Scenario::build(|scenario| {
        let server = scenario.create_server();

        scenario.create_client(|client| {
            client.connect_to(server, |conn| {
                conn.open_send_stream(
                    |local| {
                        local.set_send_rate(1024.bytes(), 50.millis());
                        local.send(1.megabytes());
                    },
                    |peer| {
                        peer.set_receive_rate(1024.bytes(), 50.millis());
                        peer.receive(1.megabytes());
                    },
                );
            });
        });
    });

    assert_eq!(scenario.servers.len(), 1);
    assert_eq!(scenario.clients.len(), 1);
    assert!(scenario.traces.is_empty());
    assert!(is_lower_hex_digest(scenario.id.as_str()));

    let client = &scenario.clients[0];
    assert_eq!(
        client.scenario,
        vec![ClientOp::Connect {
            server_id: 0,
            router_id: None,
            server_connection_id: 0,
            client_connection_id: 0,
        }]
    );
    assert_eq!(client.connections.len(), 1);
    assert_eq!(
        client.connections[0].ops,
        vec![
            ConnectionOp::SendStream { stream_id: 0 },
            ConnectionOp::SendRate { stream_id: 0, bytes: 1024, period: Duration::from_millis(50) },
            ConnectionOp::Send { stream_id: 0, bytes: 1_000_000 },
        ]
    );
    assert!(client.connections[0].peer_streams.is_empty());

    let server = &scenario.servers[0];
    assert_eq!(server.connections.len(), 1);
    assert!(server.connections[0].ops.is_empty());
    assert_eq!(
        server.connections[0].peer_streams,
        vec![vec![
            ConnectionOp::ReceiveRate { stream_id: 0, bytes: 1024, period: Duration::from_millis(50) },
            ConnectionOp::Receive { stream_id: 0, bytes: 1_000_000 },
        ]]
    );
}

#[test]
fn conn_checkpoints() {
    let scenario = Scenario::build(|scenario| {
        let server = scenario.create_server();

        scenario.create_client(|client| {
            client.connect_to(server, |conn| {
                let (cp1_rx, cp1_tx) = conn.checkpoint();

                conn.concurrently(
                    |conn| {
                        conn.open_send_stream(
                            |local| {
                                local.set_send_rate(10.kilobytes(), 50.millis());
                                local.send(1.megabytes() / 2);
                                local.unpark(cp1_tx);
                                local.send(1.megabytes() / 2);
                            },
                            |peer| {
                                peer.set_receive_rate(10.kilobytes(), 50.millis());
                                peer.receive(1.megabytes());
                            },
                        );
                    },
                    |conn| {
                        conn.open_send_stream(
                            |local| {
                                local.park(cp1_rx);
                                local.set_send_rate(1024.bytes(), 50.millis());
                                local.send(1.megabytes());
                            },
                            |peer| {
                                peer.set_receive_rate(1024.bytes(), 50.millis());
                                peer.receive(1.megabytes());
                            },
                        );
                    },
                );
            });
        });
    });

    let ms50 = Duration::from_millis(50);
    assert_eq!(
        scenario.clients[0].connections[0].ops,
        vec![ConnectionOp::Scope {
            threads: vec![
                vec![
                    ConnectionOp::SendStream { stream_id: 0 },
                    ConnectionOp::SendRate { stream_id: 0, bytes: 10_000, period: ms50 },
                    ConnectionOp::Send { stream_id: 0, bytes: 500_000 },
                    ConnectionOp::Unpark { checkpoint: 0 },
                    ConnectionOp::Send { stream_id: 0, bytes: 500_000 },
                ],
                vec![
                    ConnectionOp::SendStream { stream_id: 1 },
                    ConnectionOp::Park { checkpoint: 0 },
                    ConnectionOp::SendRate { stream_id: 1, bytes: 1024, period: ms50 },
                    ConnectionOp::Send { stream_id: 1, bytes: 1_000_000 },
                ],
            ],
        }]
    );
    assert_eq!(
        scenario.servers[0].connections[0].peer_streams,
        vec![
            vec![
                ConnectionOp::ReceiveRate { stream_id: 0, bytes: 10_000, period: ms50 },
                ConnectionOp::Receive { stream_id: 0, bytes: 1_000_000 },
            ],
            vec![
                ConnectionOp::ReceiveRate { stream_id: 1, bytes: 1024, period: ms50 },
                ConnectionOp::Receive { stream_id: 1, bytes: 1_000_000 },
            ],
        ]
    );
}

#[test]
fn linked_streams() {
    let scenario = Scenario::build(|scenario| {
        let server = scenario.create_server();

        scenario.create_client(|client| {
            client.connect_to(server, |conn| {
                let (b_park, b_unpark) = conn.checkpoint();

                conn.concurrently(
                    |conn| {
                        conn.open_bidirectional_stream(
                            |local| {
                                local.concurrently(
                                    |sender| {
                                        sender.set_send_rate(1024.bytes(), 50.millis());
                                        sender.send(1.megabytes());
                                    },
                                    |receiver| {
                                        receiver.receive_all();
                                    },
                                );

                                local.unpark(b_unpark);
                            },
                            |peer| {
                                peer.sleep(100.millis());

                                peer.set_receive_rate(1024.bytes(), 50.millis());
                                peer.receive(100.kilobytes());

                                peer.set_receive_rate(10.bytes(), 50.millis());
                                peer.receive_all();

                                peer.send(2.megabytes());
                            },
                        );
                    },
                    |conn| {
                        conn.open_send_stream(
                            |local| {
                                local.park(b_park);
                                local.send(1.megabytes());
                            },
                            |peer| {
                                peer.receive(1.megabytes());
                            },
                        );
                    },
                );
            });
        });
    });

    let ms50 = Duration::from_millis(50);
    assert_eq!(
        scenario.clients[0].connections[0].ops,
        vec![ConnectionOp::Scope {
            threads: vec![
                vec![
                    ConnectionOp::BidirectionalStream { stream_id: 0 },
                    ConnectionOp::Scope {
                        threads: vec![
                            vec![
                                ConnectionOp::SendRate { stream_id: 0, bytes: 1024, period: ms50 },
                                ConnectionOp::Send { stream_id: 0, bytes: 1_000_000 },
                            ],
                            vec![ConnectionOp::ReceiveAll { stream_id: 0 }],
                        ],
                    },
                    ConnectionOp::Unpark { checkpoint: 0 },
                ],
                vec![
                    ConnectionOp::SendStream { stream_id: 1 },
                    ConnectionOp::Park { checkpoint: 0 },
                    ConnectionOp::Send { stream_id: 1, bytes: 1_000_000 },
                ],
            ],
        }]
    );
    assert_eq!(
        scenario.servers[0].connections[0].peer_streams,
        vec![
            vec![
                ConnectionOp::Sleep { amount: Duration::from_millis(100) },
                ConnectionOp::ReceiveRate { stream_id: 0, bytes: 1024, period: ms50 },
                ConnectionOp::Receive { stream_id: 0, bytes: 100_000 },
                ConnectionOp::ReceiveRate { stream_id: 0, bytes: 10, period: ms50 },
                ConnectionOp::ReceiveAll { stream_id: 0 },
                ConnectionOp::Send { stream_id: 0, bytes: 2_000_000 },
            ],
            vec![ConnectionOp::Receive { stream_id: 1, bytes: 1_000_000 }],
        ]
    );
}

#[test]
fn scenario_id_is_a_digest_of_the_description() {
    let build = |bytes: u64| {
        Scenario::build(|scenario| {
            let server = scenario.create_server();
            scenario.create_client(|client| {
                client.connect_to(server, |conn| {
                    conn.open_send_stream(
                        |local| {
                            local.send(bytes);
                        },
                        |peer| {
                            peer.receive(bytes);
                        },
                    );
                });
            });
        })
    };
    let a = build(10);
    let b = build(10);
    let c = build(11);
    assert_eq!(a.id.as_str(), b.id.as_str());
    assert_ne!(a.id.as_str(), c.id.as_str());
}

#[test]
fn empty_scenario_id() {
    let scenario = Scenario::build(|_| {});
    assert!(scenario.clients.is_empty());
    assert!(scenario.servers.is_empty());
    // three empty lists: 24 zero bytes
    let mut hasher = netbench::op::ScenarioId::hasher();
    hasher.write(&[0u8; 24]);
    assert_eq!(hasher.finish().as_str(), scenario.id.as_str());
}

#[test]
fn trace_names_get_one_id_each() {
    let scenario = Scenario::build(|scenario| {
        let server = scenario.create_server();
        scenario.create_client(|client| {
            client.connect_to(server, |conn| {
                conn.trace("start");
                conn.trace("middle");
                conn.trace("start");
                conn.open_send_stream(
                    |local| {
                        local.trace("middle");
                        local.trace("end");
                    },
                    |peer| {
                        peer.trace("peer");
                    },
                );
            });
        });
    });
    assert_eq!(scenario.traces, vec!["start".to_string(), "middle".to_string(), "end".to_string(), "peer".to_string()]);
    assert_eq!(
        scenario.clients[0].connections[0].ops,
        vec![
            ConnectionOp::Trace { trace_id: 0 },
            ConnectionOp::Trace { trace_id: 1 },
            ConnectionOp::Trace { trace_id: 0 },
            ConnectionOp::SendStream { stream_id: 0 },
            ConnectionOp::Trace { trace_id: 1 },
            ConnectionOp::Trace { trace_id: 2 },
        ]
    );
    assert_eq!(scenario.servers[0].connections[0].peer_streams, vec![vec![ConnectionOp::Trace { trace_id: 3 }]]);
}

#[test]
fn stream_ids_follow_peer_streams() {
    let scenario = Scenario::build(|scenario| {
        let server = scenario.create_server();
        let template = server.with(scenario, |conn| {
            conn.open_send_stream(|local| {
                local.send(5);
            }, |peer| {
                peer.receive(5);
            });
        });
        scenario.create_client(|client| {
            client.connect_to(template, |conn| {
                conn.open_bidirectional_stream(|local| {
                    local.send(1);
                }, |peer| {
                    peer.receive(1);
                });
                conn.scope(|scope| {
                    scope.spawn(|conn| {
                        conn.open_send_stream(|l| {
                            l.send(2);
                        }, |p| {
                            p.receive(2);
                        });
                    });
                });
                conn.sleep(Duration::from_millis(3));
            });
        });
    });
    let client = &scenario.clients[0].connections[0];
    // a scope with a single thread is inlined
    assert_eq!(
        client.ops,
        vec![
            ConnectionOp::BidirectionalStream { stream_id: 0 },
            ConnectionOp::Send { stream_id: 0, bytes: 1 },
            ConnectionOp::SendStream { stream_id: 1 },
            ConnectionOp::Send { stream_id: 1, bytes: 2 },
            ConnectionOp::Sleep { amount: Duration::from_millis(3) },
        ]
    );
    assert_eq!(client.peer_streams, vec![vec![ConnectionOp::Receive { stream_id: 0, bytes: 5 }]]);
    let server = &scenario.servers[0].connections[0];
    assert_eq!(
        server.ops,
        vec![ConnectionOp::SendStream { stream_id: 0 }, ConnectionOp::Send { stream_id: 0, bytes: 5 }]
    );
    assert_eq!(
        server.peer_streams,
        vec![
            vec![ConnectionOp::Receive { stream_id: 0, bytes: 1 }],
            vec![ConnectionOp::Receive { stream_id: 1, bytes: 2 }],
        ]
    );
}

#[test]
fn scenario_id_depends_on_durations() {
    let build = |ms: u64| {
        Scenario::build(|scenario| {
            let server = scenario.create_server();
            scenario.create_client(|client| {
                client.connect_to(server, |conn| {
                    conn.sleep(Duration::from_millis(ms));
                });
            });
        })
    };
    assert_ne!(build(1).id.as_str(), build(2).id.as_str());
    assert_eq!(build(3).id.as_str(), build(3).id.as_str());
}
