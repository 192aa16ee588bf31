use websocket_fabric::subprotocol::{SubprotocolList, SubprotocolNegotiator};

#[test]
fn test_subprotocol_list_new() {
    let list = SubprotocolList::new();
    assert!(list.is_empty());
    assert_eq!(list.len(), 0);
}

#[test]
fn test_subprotocol_list_with_protocol() {
    let list = SubprotocolList::new()
        .with_protocol("chat-v2")
        .unwrap()
        .with_protocol("mqtt")
        .unwrap();

    assert_eq!(list.len(), 2);
    assert_eq!(list.protocols(), &["chat-v2".to_string(), "mqtt".to_string()]);
}

#[test]
fn test_subprotocol_list_from_slice() {
    let list = SubprotocolList::from_slice(&["chat-v2", "mqtt", "graphql"]).unwrap();

    assert_eq!(list.len(), 3);
    assert_eq!(
        list.protocols(),
        &["chat-v2".to_string(), "mqtt".to_string(), "graphql".to_string()]
    );
}

#[test]
fn test_subprotocol_list_contains() {
    let list = SubprotocolList::new()
        .with_protocol("chat-v2")
        .unwrap()
        .with_protocol("mqtt")
        .unwrap();

    assert!(list.contains("chat-v2"));
    assert!(list.contains("mqtt"));
    assert!(!list.contains("graphql"));
}

#[test]
fn test_subprotocol_list_to_header_value() {
    let list = SubprotocolList::new()
        .with_protocol("chat-v2")
        .unwrap()
        .with_protocol("mqtt")
        .unwrap()
        .with_protocol("graphql")
        .unwrap();

    assert_eq!(list.to_header_value(), "chat-v2, mqtt, graphql");
}

#[test]
fn test_subprotocol_list_to_header_value_empty() {
    let list = SubprotocolList::new();
    assert_eq!(list.to_header_value(), "");
}

#[test]
fn test_subprotocol_list_parse_response_success() {
    let list = SubprotocolList::new()
        .with_protocol("chat-v2")
        .unwrap()
        .with_protocol("mqtt")
        .unwrap();

    let result = list.parse_response(Some("chat-v2"));
    assert!(result.is_ok());
    assert_eq!(result.unwrap(), Some("chat-v2".to_string()));
}

#[test]
fn test_subprotocol_list_parse_response_none() {
    let list = SubprotocolList::new()
        .with_protocol("chat-v2")
        .unwrap();

    let result = list.parse_response(None);
    assert!(result.is_ok());
    assert_eq!(result.unwrap(), None);
}

#[test]
fn test_subprotocol_list_parse_response_invalid() {
    let list = SubprotocolList::new()
        .with_protocol("chat-v2")
        .unwrap();

    let result = list.parse_response(Some("graphql"));
    assert!(result.is_err());
}

#[test]
fn test_subprotocol_list_validate_valid() {
    assert!(SubprotocolList::validate_protocol("chat").is_ok());
    assert!(SubprotocolList::validate_protocol("chat-v2").is_ok());
    assert!(SubprotocolList::validate_protocol("chat_v2").is_ok());
    assert!(SubprotocolList::validate_protocol("MQTT").is_ok());
    assert!(SubprotocolList::validate_protocol("graphql-ws").is_ok());
}

#[test]
fn test_subprotocol_list_validate_empty() {
    let result = SubprotocolList::validate_protocol("");
    assert!(result.is_err());
}

#[test]
fn test_subprotocol_list_validate_invalid_chars() {
    assert!(SubprotocolList::validate_protocol("chat.v2").is_err());
    assert!(SubprotocolList::validate_protocol("chat/v2").is_err());
    assert!(SubprotocolList::validate_protocol("chat v2").is_err());
    assert!(SubprotocolList::validate_protocol("chat@v2").is_err());
}

#[test]
fn test_subprotocol_list_display() {
    let list = SubprotocolList::new()
        .with_protocol("chat-v2")
        .unwrap()
        .with_protocol("mqtt")
        .unwrap();

    assert_eq!(list.to_string(), "chat-v2, mqtt");
}

#[test]
fn test_subprotocol_list_case_sensitive() {
    let list = SubprotocolList::new()
        .with_protocol("MQTT")
        .unwrap();

    assert!(list.contains("MQTT"));
    assert!(!list.contains("mqtt"));
    assert!(!list.contains("Mqtt"));
}

#[test]
fn test_negotiator_new() {
    let negotiator = SubprotocolNegotiator::new();
    assert!(negotiator.is_empty());
    assert_eq!(negotiator.len(), 0);
}

#[test]
fn test_negotiator_from_slice() {
    let negotiator = SubprotocolNegotiator::from_slice(&["mqtt", "chat-v2"]).unwrap();

    assert_eq!(negotiator.len(), 2);
    assert_eq!(
        negotiator.protocols(),
        &["mqtt".to_string(), "chat-v2".to_string()]
    );
}

#[test]
fn test_negotiator_with_protocol() {
    let negotiator = SubprotocolNegotiator::new()
        .with_protocol("mqtt")
        .unwrap()
        .with_protocol("chat-v2")
        .unwrap();

    assert_eq!(negotiator.len(), 2);
}

#[test]
fn test_negotiator_supports() {
    let negotiator = SubprotocolNegotiator::new()
        .with_protocol("mqtt")
        .unwrap();

    assert!(negotiator.supports("mqtt"));
    assert!(!negotiator.supports("graphql"));
}

#[test]
fn test_negotiate_first_match() {
    let negotiator = SubprotocolNegotiator::new()
        .with_protocol("mqtt")
        .unwrap()
        .with_protocol("chat-v2")
        .unwrap()
        .with_protocol("chat-v1")
        .unwrap();

    let client_protocols = SubprotocolList::new()
        .with_protocol("chat-v2")
        .unwrap()
        .with_protocol("graphql")
        .unwrap()
        .with_protocol("mqtt")
        .unwrap();

    // Should select "chat-v2" (first match in client preference order)
    assert_eq!(
        negotiator.negotiate(&client_protocols),
        Some("chat-v2".to_string())
    );
}

#[test]
fn test_negotiate_second_match() {
    let negotiator = SubprotocolNegotiator::new()
        .with_protocol("mqtt")
        .unwrap()
        .with_protocol("chat-v1")
        .unwrap();

    let client_protocols = SubprotocolList::new()
        .with_protocol("graphql")
        .unwrap()
        .with_protocol("mqtt")
        .unwrap()
        .with_protocol("chat-v1")
        .unwrap();

    // Should select "mqtt" (first match)
    assert_eq!(
        negotiator.negotiate(&client_protocols),
        Some("mqtt".to_string())
    );
}

#[test]
fn test_negotiate_no_match() {
    let negotiator = SubprotocolNegotiator::new()
        .with_protocol("mqtt")
        .unwrap();

    let client_protocols = SubprotocolList::new()
        .with_protocol("graphql")
        .unwrap()
        .with_protocol("chat-v2")
        .unwrap();

    // No match found
    assert_eq!(negotiator.negotiate(&client_protocols), None);
}

#[test]
fn test_negotiate_client_empty() {
    let negotiator = SubprotocolNegotiator::new()
        .with_protocol("mqtt")
        .unwrap();

    let client_protocols = SubprotocolList::new();

    // Client offers no protocols
    assert_eq!(negotiator.negotiate(&client_protocols), None);
}

#[test]
fn test_negotiate_server_empty() {
    let negotiator = SubprotocolNegotiator::new();

    let client_protocols = SubprotocolList::new()
        .with_protocol("mqtt")
        .unwrap();

    // Server supports no protocols
    assert_eq!(negotiator.negotiate(&client_protocols), None);
}

#[test]
fn test_negotiate_wildcard() {
    let negotiator = SubprotocolNegotiator::new()
        .with_wildcard(true);

    let client_protocols = SubprotocolList::new()
        .with_protocol("any-protocol")
        .unwrap()
        .with_protocol("another-protocol")
        .unwrap();

    // With wildcard, accepts client's first preference
    assert_eq!(
        negotiator.negotiate(&client_protocols),
        Some("any-protocol".to_string())
    );
}

#[test]
fn test_negotiate_wildcard_disabled() {
    let negotiator = SubprotocolNegotiator::new()
        .with_wildcard(false);

    let client_protocols = SubprotocolList::new()
        .with_protocol("any-protocol")
        .unwrap();

    // Without wildcard and no supported protocols, returns None
    assert_eq!(negotiator.negotiate(&client_protocols), None);
}

#[test]
fn test_should_reject_true() {
    let negotiator = SubprotocolNegotiator::new()
        .with_protocol("mqtt")
        .unwrap();

    let client_protocols = SubprotocolList::new()
        .with_protocol("graphql")
        .unwrap();

    // Client offered protocols but no match
    assert!(negotiator.should_reject(&client_protocols));
}

#[test]
fn test_should_reject_false_match() {
    let negotiator = SubprotocolNegotiator::new()
        .with_protocol("mqtt")
        .unwrap();

    let client_protocols = SubprotocolList::new()
        .with_protocol("mqtt")
        .unwrap();

    // Match found
    assert!(!negotiator.should_reject(&client_protocols));
}

#[test]
fn test_should_reject_false_empty() {
    let negotiator = SubprotocolNegotiator::new()
        .with_protocol("mqtt")
        .unwrap();

    let client_protocols = SubprotocolList::new();

    // Client offered no protocols
    assert!(!negotiator.should_reject(&client_protocols));
}

#[test]
fn test_parse_header() {
    let header = "chat-v2, mqtt, graphql";
    let list = SubprotocolNegotiator::parse_header(header);

    assert_eq!(list.len(), 3);
    assert_eq!(
        list.protocols(),
        &["chat-v2".to_string(), "mqtt".to_string(), "graphql".to_string()]
    );
}

#[test]
fn test_parse_header_with_spaces() {
    let header = "chat-v2 ,  mqtt  ,   graphql";
    let list = SubprotocolNegotiator::parse_header(header);

    assert_eq!(list.len(), 3);
    assert_eq!(
        list.protocols(),
        &["chat-v2".to_string(), "mqtt".to_string(), "graphql".to_string()]
    );
}

#[test]
fn test_parse_header_empty() {
    let list = SubprotocolNegotiator::parse_header("");
    assert!(list.is_empty());
}

#[test]
fn test_parse_header_invalid_protocols() {
    let header = "valid-v1, invalid.v2, valid-v3";
    let list = SubprotocolNegotiator::parse_header(header);

    // Should skip invalid protocols
    assert_eq!(list.len(), 2);
    assert_eq!(
        list.protocols(),
        &["valid-v1".to_string(), "valid-v3".to_string()]
    );
}

#[test]
fn test_full_negotiation_flow() {
    // Server configuration
    let server = SubprotocolNegotiator::new()
        .with_protocol("mqtt")
        .unwrap()
        .with_protocol("chat-v2")
        .unwrap()
        .with_protocol("chat-v1")
        .unwrap();

    // Client request
    let client = SubprotocolList::new()
        .with_protocol("chat-v2")
        .unwrap()
        .with_protocol("graphql")
        .unwrap()
        .with_protocol("mqtt")
        .unwrap();

    // Server selects protocol
    let selected = server.negotiate(&client);
    assert_eq!(selected, Some("chat-v2".to_string()));

    // Generate header
    let header_value = client.to_header_value();
    assert_eq!(header_value, "chat-v2, graphql, mqtt");

    // Client validates server response
    let validated = client.parse_response(selected.as_deref()).unwrap();
    assert_eq!(validated, Some("chat-v2".to_string()));
}

#[test]
fn test_no_subprotocol_negotiation() {
    // Server doesn't require subprotocol
    let server = SubprotocolNegotiator::new();

    // Client doesn't offer subprotocol
    let client = SubprotocolList::new();

    // No negotiation
    let selected = server.negotiate(&client);
    assert_eq!(selected, None);

    // Client accepts no protocol
    let validated = client.parse_response(None).unwrap();
    assert_eq!(validated, None);
}

#[test]
fn test_priority_order_matters() {
    let server = SubprotocolNegotiator::new()
        .with_protocol("chat-v1")
        .unwrap()
        .with_protocol("chat-v2")
        .unwrap()
        .with_protocol("chat-v3")
        .unwrap();

    // Client prefers v3, then v2, then v1
    let client1 = SubprotocolList::new()
        .with_protocol("chat-v3")
        .unwrap()
        .with_protocol("chat-v2")
        .unwrap()
        .with_protocol("chat-v1")
        .unwrap();

    // Should get v3 (first match)
    assert_eq!(
        server.negotiate(&client1),
        Some("chat-v3".to_string())
    );

    // Client prefers v1, then v2, then v3
    let client2 = SubprotocolList::new()
        .with_protocol("chat-v1")
        .unwrap()
        .with_protocol("chat-v2")
        .unwrap()
        .with_protocol("chat-v3")
        .unwrap();

    // Should get v1 (first match)
    assert_eq!(
        server.negotiate(&client2),
        Some("chat-v1".to_string())
    );
}

#[test]
fn test_duplicate_protocols() {
    // Client sends duplicate protocols
    let client = SubprotocolList::new()
        .with_protocol("chat-v2")
        .unwrap()
        .with_protocol("mqtt")
        .unwrap()
        .with_protocol("chat-v2")
        .unwrap(); // Duplicate

    assert_eq!(client.len(), 3); // Doesn't deduplicate
    assert_eq!(client.to_header_value(), "chat-v2, mqtt, chat-v2");
}

#[test]
fn test_common_protocols() {
    let mqtt = SubprotocolList::new()
        .with_protocol("mqtt")
        .unwrap();

    let graphql = SubprotocolList::new()
        .with_protocol("graphql")
        .unwrap()
        .with_protocol("graphql-transport-ws")
        .unwrap();

    let chat = SubprotocolList::new()
        .with_protocol("chat-v1")
        .unwrap()
        .with_protocol("chat-v2")
        .unwrap();

    // Common real-world subprotocols
    assert!(mqtt.contains("mqtt"));
    assert!(graphql.contains("graphql"));
    assert!(chat.contains("chat-v2"));
}

#[test]
fn header_value_parses_back_to_the_same_list() {
    let list = SubprotocolList::from_slice(&["graphql-ws", "chat_v2", "mqtt"]).unwrap();
    let header = list.to_header_value();
    assert_eq!(header, "graphql-ws, chat_v2, mqtt");
    let parsed = SubprotocolNegotiator::parse_header(&header);
    assert_eq!(parsed.protocols(), list.protocols());
}

#[test]
fn non_ascii_names_parse_back_from_their_header_value() {
    let list = SubprotocolList::from_slice(&["café", "日本語", "mqtt"]).unwrap();
    let header = list.to_header_value();
    let parsed = SubprotocolNegotiator::parse_header(&header);
    assert_eq!(parsed.protocols(), list.protocols());
}

#[test]
fn negotiator_from_slice_keeps_first_occurrences_in_order() {
    let n = SubprotocolNegotiator::from_slice(&["mqtt", "chat-v2", "mqtt", "graphql"]).unwrap();
    assert_eq!(
        n.protocols(),
        &["mqtt".to_string(), "chat-v2".to_string(), "graphql".to_string()]
    );
}
