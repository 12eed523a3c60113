//! DDS names and XML entity descriptions.

use micro_xrce_dds_rs::{
    node::{datareader_xml, datawriter_xml, participant_xml, topic_xml, PUBLISHER_XML, SUBSCRIBER_XML},
    rt::encode::{ros2_replier_xml, ros2_requester_xml, ros2_topic_name, SERVICE_XML_MAX, TOPIC_NAME_MAX},
    Error,
};

#[test]
fn topic_name_gets_rt_prefix() {
    assert_eq!(ros2_topic_name("/temperature").unwrap().as_str(), "rt/temperature");
    // A leading slash is optional.
    assert_eq!(ros2_topic_name("temperature").unwrap().as_str(), "rt/temperature");
    assert_eq!(ros2_topic_name("/a/b").unwrap().as_str(), "rt/a/b");
    assert_eq!(ros2_topic_name("").unwrap().as_str(), "rt/");
}

#[test]
fn topic_name_too_long() {
    let fits = "x".repeat(TOPIC_NAME_MAX - 3);
    assert_eq!(ros2_topic_name(&fits).unwrap().len(), TOPIC_NAME_MAX);
    let long = "x".repeat(TOPIC_NAME_MAX - 2);
    assert_eq!(ros2_topic_name(&long).err(), Some(Error::BufferTooSmall));
}

#[test]
fn node_xml_descriptions() {
    assert_eq!(
        participant_xml("sensor").as_str(),
        "<dds><participant><rtps><name>sensor</name></rtps></participant></dds>"
    );
    assert_eq!(
        topic_xml("rt/temperature", "std_msgs::msg::dds_::Float32_").as_str(),
        "<dds><topic><name>rt/temperature</name><dataType>std_msgs::msg::dds_::Float32_</dataType></topic></dds>"
    );
    assert_eq!(
        datawriter_xml("rt/t", "T").as_str(),
        "<dds><data_writer><topic><kind>NO_KEY</kind><name>rt/t</name><dataType>T</dataType></topic></data_writer></dds>"
    );
    assert_eq!(
        datareader_xml("rt/t", "T").as_str(),
        "<dds><data_reader><topic><kind>NO_KEY</kind><name>rt/t</name><dataType>T</dataType></topic></data_reader></dds>"
    );
    assert_eq!(PUBLISHER_XML, "<dds><publisher><name>default</name></publisher></dds>");
    assert_eq!(SUBSCRIBER_XML, "<dds><subscriber><name>default</name></subscriber></dds>");
}

#[test]
fn node_xml_stops_at_first_piece_that_does_not_fit() {
    // The participant XML holds 128 bytes: with a 90-byte name the closing
    // tags no longer fit and are left out whole.
    let name = "n".repeat(90);
    let x = participant_xml(&name);
    assert_eq!(x.as_str(), format!("<dds><participant><rtps><name>{}", name));
    // A name that does not fit at all leaves only the opening tags.
    let name = "n".repeat(100);
    assert_eq!(participant_xml(&name).as_str(), "<dds><participant><rtps><name>");
}

#[test]
fn service_xml_descriptions() {
    let x = ros2_requester_xml("/add_two_ints", "ex::srv::dds_::AddTwoInts_Request_", "ex::srv::dds_::AddTwoInts_Response_")
        .unwrap();
    assert_eq!(
        x.as_str(),
        "<dds><requester profile_name=\"\" service_name=\"/add_two_ints\" \
         request_type=\"ex::srv::dds_::AddTwoInts_Request_\" reply_type=\"ex::srv::dds_::AddTwoInts_Response_\">\
         <request_topic_name>rq/add_two_intsRequest</request_topic_name>\
         <reply_topic_name>rr/add_two_intsReply</reply_topic_name></requester></dds>"
    );
    let y = ros2_replier_xml("/p", "Rq", "Rp").unwrap();
    assert_eq!(
        y.as_str(),
        "<dds><replier profile_name=\"\" service_name=\"/p\" request_type=\"Rq\" reply_type=\"Rp\">\
         <request_topic_name>rq/pRequest</request_topic_name><reply_topic_name>rr/pReply</reply_topic_name>\
         </replier></dds>"
    );
    let long = "t".repeat(SERVICE_XML_MAX);
    assert_eq!(ros2_requester_xml("/p", &long, "Rp").err(), Some(Error::BufferTooSmall));
}
